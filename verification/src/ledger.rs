use vstd::prelude::*;
use crate::account::AccountCode;
use crate::amount::Amount;
use crate::errors::LedgerError;
use crate::journal::JournalEntry;
use crate::journal::LineModel;
use crate::journal::lemma_i64_sum_bound_step;
use crate::journal::lemma_sum_drop_first;
use crate::journal::line_models;
use crate::journal::sum_credits;
use crate::journal::sum_debits;

verus! {

/// The mathematical content of one ledger row: an account and its two
/// running totals as unbounded integers of minor units.
pub ghost struct BalanceModel {
    pub account: Seq<char>,
    pub debit: int,
    pub credit: int,
}

/// The cumulative debit and credit totals posted against one account.
/// Both sides accumulate; they are never netted against each other.
#[derive(Debug)]
pub struct AccountBalance {
    pub account: AccountCode,
    pub debit_balance: Amount,
    pub credit_balance: Amount,
}

impl View for AccountBalance {
    type V = BalanceModel;

    open spec fn view(&self) -> BalanceModel {
        BalanceModel {
            account: self.account@,
            debit: self.debit_balance@,
            credit: self.credit_balance@,
        }
    }
}

impl Clone for AccountBalance {
    fn clone(&self) -> (r: Self)
        ensures
            r@ == self@,
    {
        AccountBalance {
            account: self.account.clone(),
            debit_balance: self.debit_balance,
            credit_balance: self.credit_balance,
        }
    }
}

/// The rows of a ledger, seen as their models.
pub open spec fn balance_models(bals: Seq<AccountBalance>) -> Seq<BalanceModel> {
    bals.map_values(|b: AccountBalance| b@)
}

/// Some row carries the given account.
pub open spec fn has_account(bals: Seq<BalanceModel>, account: Seq<char>) -> bool {
    exists|k: int| 0 <= k < bals.len() && (#[trigger] bals[k]).account == account
}

/// The position of the first row carrying the given account
/// (meaningful only when `has_account` holds).
pub open spec fn account_index(bals: Seq<BalanceModel>, account: Seq<char>) -> int
    decreases bals.len(),
{
    if bals.len() == 0 {
        0
    } else if bals[0].account == account {
        0
    } else {
        1 + account_index(bals.drop_first(), account)
    }
}

/// When a row carries the account, `account_index` points at the first
/// such row.
pub proof fn lemma_account_index_props(bals: Seq<BalanceModel>, account: Seq<char>)
    requires
        has_account(bals, account),
    ensures
        0 <= account_index(bals, account) < bals.len(),
        bals[account_index(bals, account)].account == account,
        forall|k: int| 0 <= k < account_index(bals, account) ==> (#[trigger] bals[k]).account
            != account,
    decreases bals.len(),
{
    if bals[0].account == account {
    } else {
        let k = choose|k: int| 0 <= k < bals.len() && (#[trigger] bals[k]).account == account;
        assert(bals.drop_first()[k - 1] == bals[k]);
        lemma_account_index_props(bals.drop_first(), account);
        assert forall|k2: int| 0 <= k2 < account_index(bals, account) implies (
        #[trigger] bals[k2]).account != account by {
            if k2 > 0 {
                assert(bals[k2] == bals.drop_first()[k2 - 1]);
            }
        }
    }
}

/// A forward search that finds the account at `i`, with no earlier match,
/// has found `account_index`.
pub proof fn lemma_account_index_at(bals: Seq<BalanceModel>, account: Seq<char>, i: int)
    requires
        0 <= i < bals.len(),
        bals[i].account == account,
        forall|k: int| 0 <= k < i ==> (#[trigger] bals[k]).account != account,
    ensures
        has_account(bals, account),
        account_index(bals, account) == i,
    decreases i,
{
    if i == 0 {
    } else {
        assert forall|k: int| 0 <= k < i - 1 implies (#[trigger] bals.drop_first()[k]).account
            != account by {
            assert(bals.drop_first()[k] == bals[k + 1]);
        }
        assert(bals.drop_first()[i - 1] == bals[i]);
        lemma_account_index_at(bals.drop_first(), account, i - 1);
    }
}

/// One posting step: the first row for the line's account grows by the
/// line's two sides; an account without a row gets a fresh row holding
/// just this line's sides.
pub open spec fn apply_line(bals: Seq<BalanceModel>, line: LineModel) -> Seq<BalanceModel> {
    if has_account(bals, line.account) {
        let k = account_index(bals, line.account);
        bals.update(
            k,
            BalanceModel {
                account: line.account,
                debit: bals[k].debit + line.debit,
                credit: bals[k].credit + line.credit,
            },
        )
    } else {
        bals.push(BalanceModel { account: line.account, debit: line.debit, credit: line.credit })
    }
}

/// Posting a list of lines, leftmost first.
pub open spec fn post_lines(bals: Seq<BalanceModel>, lines: Seq<LineModel>) -> Seq<BalanceModel>
    decreases lines.len(),
{
    if lines.len() == 0 {
        bals
    } else {
        post_lines(apply_line(bals, lines[0]), lines.drop_first())
    }
}

/// Posting the lines and then one more is applying that one to the
/// posted state.
pub proof fn lemma_post_lines_snoc(
    bals: Seq<BalanceModel>,
    lines: Seq<LineModel>,
    line: LineModel,
)
    ensures
        post_lines(bals, lines.push(line)) == apply_line(post_lines(bals, lines), line),
    decreases lines.len(),
{
    if lines.len() == 0 {
        assert(lines.push(line)[0] == line);
        assert(lines.push(line).drop_first() =~= Seq::<LineModel>::empty());
        assert(post_lines(bals, lines.push(line)) == post_lines(
            apply_line(bals, line),
            Seq::<LineModel>::empty(),
        ));
        assert(post_lines(apply_line(bals, line), Seq::<LineModel>::empty()) == apply_line(
            bals,
            line,
        ));
    } else {
        assert(lines.push(line)[0] == lines[0]);
        assert(lines.push(line).drop_first() =~= lines.drop_first().push(line));
        assert(post_lines(bals, lines.push(line)) == post_lines(
            apply_line(bals, lines[0]),
            lines.drop_first().push(line),
        ));
        lemma_post_lines_snoc(apply_line(bals, lines[0]), lines.drop_first(), line);
        assert(post_lines(bals, lines) == post_lines(
            apply_line(bals, lines[0]),
            lines.drop_first(),
        ));
    }
}

/// Every row's totals fit the machine integers that store them.
pub open spec fn fits_i64(bals: Seq<BalanceModel>) -> bool {
    forall|k: int| 0 <= k < bals.len() ==> (i64::MIN <= (#[trigger] bals[k]).debit <= i64::MAX
        && i64::MIN <= bals[k].credit <= i64::MAX)
}

/// The total of the rows' debit sides.
pub open spec fn total_debit_of(bals: Seq<BalanceModel>) -> int
    decreases bals.len(),
{
    if bals.len() == 0 {
        0
    } else {
        total_debit_of(bals.drop_last()) + bals.last().debit
    }
}

/// The total of the rows' credit sides.
pub open spec fn total_credit_of(bals: Seq<BalanceModel>) -> int
    decreases bals.len(),
{
    if bals.len() == 0 {
        0
    } else {
        total_credit_of(bals.drop_last()) + bals.last().credit
    }
}

/// Extending a prefix of rows by one adds that row's sides to the totals.
pub proof fn lemma_total_take_succ(bals: Seq<BalanceModel>, j: int)
    requires
        0 <= j < bals.len(),
    ensures
        total_debit_of(bals.take(j + 1)) == total_debit_of(bals.take(j)) + bals[j].debit,
        total_credit_of(bals.take(j + 1)) == total_credit_of(bals.take(j)) + bals[j].credit,
{
    assert(bals.take(j + 1).drop_last() =~= bals.take(j));
    assert(bals.take(j + 1).last() == bals[j]);
}

/// Replacing one row moves the totals by the difference of the rows.
proof fn lemma_total_update(bals: Seq<BalanceModel>, k: int, v: BalanceModel)
    requires
        0 <= k < bals.len(),
    ensures
        total_debit_of(bals.update(k, v)) == total_debit_of(bals) - bals[k].debit + v.debit,
        total_credit_of(bals.update(k, v)) == total_credit_of(bals) - bals[k].credit + v.credit,
    decreases bals.len(),
{
    if k == bals.len() - 1 {
        assert(bals.update(k, v).drop_last() =~= bals.drop_last());
        assert(bals.update(k, v).last() == v);
    } else {
        assert(bals.update(k, v).drop_last() =~= bals.drop_last().update(k, v));
        assert(bals.update(k, v).last() == bals.last());
        lemma_total_update(bals.drop_last(), k, v);
        assert(bals.drop_last()[k] == bals[k]);
    }
}

/// Applying one line moves each total by exactly that line's side.
pub proof fn lemma_apply_line_totals(bals: Seq<BalanceModel>, line: LineModel)
    ensures
        total_debit_of(apply_line(bals, line)) == total_debit_of(bals) + line.debit,
        total_credit_of(apply_line(bals, line)) == total_credit_of(bals) + line.credit,
{
    if has_account(bals, line.account) {
        lemma_account_index_props(bals, line.account);
        lemma_total_update(
            bals,
            account_index(bals, line.account),
            BalanceModel {
                account: line.account,
                debit: bals[account_index(bals, line.account)].debit + line.debit,
                credit: bals[account_index(bals, line.account)].credit + line.credit,
            },
        );
    } else {
        assert(bals.push(
            BalanceModel { account: line.account, debit: line.debit, credit: line.credit },
        ).drop_last() =~= bals);
    }
}

/// Posting a list of lines moves each total by the list's sum of that
/// side: posting is additive on the trial-balance totals.
pub proof fn lemma_post_lines_totals(bals: Seq<BalanceModel>, lines: Seq<LineModel>)
    ensures
        total_debit_of(post_lines(bals, lines)) == total_debit_of(bals) + sum_debits(lines),
        total_credit_of(post_lines(bals, lines)) == total_credit_of(bals) + sum_credits(lines),
    decreases lines.len(),
{
    if lines.len() == 0 {
    } else {
        lemma_sum_drop_first(lines);
        lemma_apply_line_totals(bals, lines[0]);
        lemma_post_lines_totals(apply_line(bals, lines[0]), lines.drop_first());
    }
}

/// Posting to a ledger whose totals agree leaves agreeing totals exactly
/// when the posted lines themselves balance.
pub proof fn lemma_post_balanced_iff(bals: Seq<BalanceModel>, lines: Seq<LineModel>)
    requires
        total_debit_of(bals) == total_credit_of(bals),
    ensures
        total_debit_of(post_lines(bals, lines)) == total_credit_of(post_lines(bals, lines))
            <==> sum_debits(lines) == sum_credits(lines),
{
    lemma_post_lines_totals(bals, lines);
}

/// Posting a run of entries, earliest first.
pub open spec fn post_all(bals: Seq<BalanceModel>, entries: Seq<Seq<LineModel>>) -> Seq<
    BalanceModel,
>
    decreases entries.len(),
{
    if entries.len() == 0 {
        bals
    } else {
        post_all(post_lines(bals, entries[0]), entries.drop_first())
    }
}

/// The debit sides of a run of entries, all summed.
pub open spec fn entries_sum_debits(entries: Seq<Seq<LineModel>>) -> int
    decreases entries.len(),
{
    if entries.len() == 0 {
        0
    } else {
        sum_debits(entries[0]) + entries_sum_debits(entries.drop_first())
    }
}

/// The credit sides of a run of entries, all summed.
pub open spec fn entries_sum_credits(entries: Seq<Seq<LineModel>>) -> int
    decreases entries.len(),
{
    if entries.len() == 0 {
        0
    } else {
        sum_credits(entries[0]) + entries_sum_credits(entries.drop_first())
    }
}

/// Posting a run of entries moves each trial-balance total by the run's
/// whole sum of that side.
pub proof fn lemma_post_all_totals(bals: Seq<BalanceModel>, entries: Seq<Seq<LineModel>>)
    ensures
        total_debit_of(post_all(bals, entries)) == total_debit_of(bals) + entries_sum_debits(
            entries,
        ),
        total_credit_of(post_all(bals, entries)) == total_credit_of(bals) + entries_sum_credits(
            entries,
        ),
    decreases entries.len(),
{
    if entries.len() == 0 {
    } else {
        lemma_post_lines_totals(bals, entries[0]);
        lemma_post_all_totals(post_lines(bals, entries[0]), entries.drop_first());
    }
}

/// Round trip: from agreeing totals, any run of balanced entries leaves
/// the trial-balance totals agreeing, each posting preserving the
/// invariant additively.
pub proof fn lemma_post_all_balanced(bals: Seq<BalanceModel>, entries: Seq<Seq<LineModel>>)
    requires
        total_debit_of(bals) == total_credit_of(bals),
        forall|i: int| 0 <= i < entries.len() ==> sum_debits(#[trigger] entries[i]) == sum_credits(
            entries[i],
        ),
    ensures
        total_debit_of(post_all(bals, entries)) == total_credit_of(post_all(bals, entries)),
    decreases entries.len(),
{
    if entries.len() == 0 {
    } else {
        lemma_post_lines_totals(bals, entries[0]);
        assert forall|i: int| 0 <= i < entries.drop_first().len() implies sum_debits(
            #[trigger] entries.drop_first()[i],
        ) == sum_credits(entries.drop_first()[i]) by {
            assert(entries.drop_first()[i] == entries[i + 1]);
        }
        lemma_post_all_balanced(post_lines(bals, entries[0]), entries.drop_first());
    }
}

/// A derived, read-only snapshot of the ledger: every row, with the
/// grand totals of both sides.
#[derive(Debug)]
pub struct TrialBalance {
    pub balances: Vec<AccountBalance>,
    pub total_debit: Amount,
    pub total_credit: Amount,
}

/// The ledger: a mapping from account codes to their running balances,
/// grown only by posting entries.
#[derive(Debug)]
pub struct Ledger {
    balances: Vec<AccountBalance>,
}

impl View for Ledger {
    type V = Seq<BalanceModel>;

    closed spec fn view(&self) -> Seq<BalanceModel> {
        balance_models(self.balances@)
    }
}

/// Finds the first row carrying the code, if any.
fn find_account_index(balances: &Vec<AccountBalance>, code: &AccountCode) -> (r: Option<usize>)
    ensures
        r matches Some(i) ==> has_account(balance_models(balances@), code@) && i < balances@.len()
            && i == account_index(balance_models(balances@), code@),
        r is None ==> !has_account(balance_models(balances@), code@),
{
    let ghost bm = balance_models(balances@);
    let n = balances.len();
    let mut i: usize = 0;
    while i < n
        invariant
            0 <= i <= n,
            n == balances@.len(),
            bm == balance_models(balances@),
            forall|k: int| 0 <= k < i ==> (#[trigger] bm[k]).account != code@,
        decreases n - i,
    {
        if balances[i].account == *code {
            proof {
                lemma_account_index_at(bm, code@, i as int);
            }
            return Some(i);
        }
        i += 1;
    }
    None
}

impl Ledger {
    /// A ledger with no balances.
    pub fn new() -> (r: Ledger)
        ensures
            r@ == Seq::<BalanceModel>::empty(),
    {
        let r = Ledger { balances: Vec::new() };
        proof {
            assert(r@ =~= Seq::<BalanceModel>::empty());
        }
        r
    }

    /// Posts every line of the entry in order: an account that already
    /// has a row accumulates the line's sides onto it, and a new account
    /// gets a fresh row. The entry's balance is trusted, not re-checked,
    /// and the call never fails (the `Result` is kept as a contract point
    /// for future checks, such as a closed-period gate).
    ///
    /// The bound only keeps every intermediate row inside the machine
    /// integers that store it.
    pub fn post_entry(&mut self, entry: JournalEntry) -> (r: Result<(), LedgerError>)
        requires
            forall|j: int| 0 <= j <= entry.lines@.len() ==> fits_i64(
                #[trigger] post_lines(old(self)@, line_models(entry.lines@).take(j)),
            ),
        ensures
            r is Ok,
            final(self)@ == post_lines(old(self)@, line_models(entry.lines@)),
    {
        let ghost lm = line_models(entry.lines@);
        let ghost orig = self@;
        let n = entry.lines.len();
        let mut j: usize = 0;
        while j < n
            invariant
                0 <= j <= n,
                n == entry.lines@.len(),
                lm == line_models(entry.lines@),
                self@ == post_lines(orig, lm.take(j as int)),
                forall|k: int| 0 <= k <= n ==> fits_i64(#[trigger] post_lines(orig, lm.take(k))),
            decreases n - j,
        {
            proof {
                assert(lm.take(j as int + 1) =~= lm.take(j as int).push(lm[j as int]));
                lemma_post_lines_snoc(orig, lm.take(j as int), lm[j as int]);
                assert(fits_i64(post_lines(orig, lm.take(j as int + 1))));
            }
            let found = find_account_index(&self.balances, &entry.lines[j].account);
            match found {
                Some(i) => {
                    let ghost cur = self@;
                    let ghost k = account_index(cur, lm[j as int].account);
                    proof {
                        assert(cur[k].debit + lm[j as int].debit == apply_line(
                            cur,
                            lm[j as int],
                        )[k].debit);
                        assert(cur[k].credit + lm[j as int].credit == apply_line(
                            cur,
                            lm[j as int],
                        )[k].credit);
                        assert(fits_i64(apply_line(cur, lm[j as int])));
                    }
                    let d = self.balances[i].debit_balance.0 + entry.lines[j].debit.0;
                    let c = self.balances[i].credit_balance.0 + entry.lines[j].credit.0;
                    let row = AccountBalance {
                        account: entry.lines[j].account.clone(),
                        debit_balance: Amount(d),
                        credit_balance: Amount(c),
                    };
                    self.balances.set(i, row);
                    proof {
                        assert(self@ =~= apply_line(cur, lm[j as int]));
                    }
                },
                None => {
                    let ghost cur = self@;
                    let row = AccountBalance {
                        account: entry.lines[j].account.clone(),
                        debit_balance: entry.lines[j].debit,
                        credit_balance: entry.lines[j].credit,
                    };
                    self.balances.push(row);
                    proof {
                        assert(self@ =~= apply_line(cur, lm[j as int]));
                    }
                },
            }
            j += 1;
        }
        proof {
            assert(lm.take(n as int) =~= lm);
        }
        Ok(())
    }

    /// Computes a fresh snapshot: all rows, and the exact totals of both
    /// sides. Pure: the ledger is not changed. The bounds only require
    /// the two totals to fit the machine integers returned.
    pub fn trial_balance(&self) -> (r: TrialBalance)
        requires
            i64::MIN <= total_debit_of(self@) <= i64::MAX,
            i64::MIN <= total_credit_of(self@) <= i64::MAX,
        ensures
            balance_models(r.balances@) == self@,
            r.total_debit@ == total_debit_of(self@),
            r.total_credit@ == total_credit_of(self@),
    {
        let ghost bm = self@;
        let n = self.balances.len();
        let mut total_debit: i128 = 0;
        let mut total_credit: i128 = 0;
        let mut j: usize = 0;
        while j < n
            invariant
                0 <= j <= n,
                n == self.balances@.len(),
                bm == self@,
                total_debit == total_debit_of(bm.take(j as int)),
                total_credit == total_credit_of(bm.take(j as int)),
                (j as int) * (i64::MIN as int) <= total_debit <= (j as int) * (i64::MAX as int),
                (j as int) * (i64::MIN as int) <= total_credit <= (j as int) * (i64::MAX as int),
            decreases n - j,
        {
            proof {
                lemma_total_take_succ(bm, j as int);
                lemma_i64_sum_bound_step(j as int);
            }
            total_debit = total_debit + (self.balances[j].debit_balance.0 as i128);
            total_credit = total_credit + (self.balances[j].credit_balance.0 as i128);
            j += 1;
        }
        proof {
            assert(bm.take(n as int) =~= bm);
        }
        let balances = self.balances.clone();
        proof {
            assert forall|i: int| 0 <= i < balances@.len() implies #[trigger] balances@[i]@
                == self.balances@[i]@ by {
                assert(cloned::<AccountBalance>(self.balances@[i], balances@[i]));
            }
            assert(balance_models(balances@) =~= self@);
        }
        TrialBalance {
            balances,
            total_debit: Amount(total_debit as i64),
            total_credit: Amount(total_credit as i64),
        }
    }

    /// Looks an account up by exact code match: the row is returned when
    /// one exists, and an account never posted yields `None`, not a
    /// zero-valued row.
    pub fn get_account_balance(&self, account_code: &AccountCode) -> (r: Option<&AccountBalance>)
        ensures
            r is Some <==> has_account(self@, account_code@),
            r matches Some(b) ==> has_account(self@, account_code@) && b@ == self@[account_index(
                self@,
                account_code@,
            )],
    {
        let found = find_account_index(&self.balances, account_code);
        match found {
            Some(i) => Some(&self.balances[i]),
            None => None,
        }
    }
}

/// The debit total held by the rows carrying the given account.
pub open spec fn account_debit_in(bals: Seq<BalanceModel>, account: Seq<char>) -> int
    decreases bals.len(),
{
    if bals.len() == 0 {
        0
    } else {
        account_debit_in(bals.drop_last(), account) + if bals.last().account == account {
            bals.last().debit
        } else {
            0
        }
    }
}

/// The credit total held by the rows carrying the given account.
pub open spec fn account_credit_in(bals: Seq<BalanceModel>, account: Seq<char>) -> int
    decreases bals.len(),
{
    if bals.len() == 0 {
        0
    } else {
        account_credit_in(bals.drop_last(), account) + if bals.last().account == account {
            bals.last().credit
        } else {
            0
        }
    }
}

/// The debit total of the lines touching the given account.
pub open spec fn debits_for(lines: Seq<LineModel>, account: Seq<char>) -> int
    decreases lines.len(),
{
    if lines.len() == 0 {
        0
    } else {
        debits_for(lines.drop_last(), account) + if lines.last().account == account {
            lines.last().debit
        } else {
            0
        }
    }
}

/// The credit total of the lines touching the given account.
pub open spec fn credits_for(lines: Seq<LineModel>, account: Seq<char>) -> int
    decreases lines.len(),
{
    if lines.len() == 0 {
        0
    } else {
        credits_for(lines.drop_last(), account) + if lines.last().account == account {
            lines.last().credit
        } else {
            0
        }
    }
}

/// Replacing one row moves an account's totals by the difference of what
/// the two rows hold for that account.
proof fn lemma_account_in_update(bals: Seq<BalanceModel>, k: int, v: BalanceModel, a: Seq<char>)
    requires
        0 <= k < bals.len(),
    ensures
        account_debit_in(bals.update(k, v), a) == account_debit_in(bals, a) - (if bals[k].account
            == a {
            bals[k].debit
        } else {
            0
        }) + (if v.account == a {
            v.debit
        } else {
            0
        }),
        account_credit_in(bals.update(k, v), a) == account_credit_in(bals, a) - (if bals[k].account
            == a {
            bals[k].credit
        } else {
            0
        }) + (if v.account == a {
            v.credit
        } else {
            0
        }),
    decreases bals.len(),
{
    if k == bals.len() - 1 {
        assert(bals.update(k, v).drop_last() =~= bals.drop_last());
        assert(bals.update(k, v).last() == v);
    } else {
        assert(bals.update(k, v).drop_last() =~= bals.drop_last().update(k, v));
        assert(bals.update(k, v).last() == bals.last());
        lemma_account_in_update(bals.drop_last(), k, v, a);
        assert(bals.drop_last()[k] == bals[k]);
    }
}

/// Applying one line moves its own account's totals by the line's sides
/// and leaves every other account's totals alone.
pub proof fn lemma_apply_line_account(bals: Seq<BalanceModel>, line: LineModel, a: Seq<char>)
    ensures
        account_debit_in(apply_line(bals, line), a) == account_debit_in(bals, a) + (
        if line.account == a {
            line.debit
        } else {
            0
        }),
        account_credit_in(apply_line(bals, line), a) == account_credit_in(bals, a) + (
        if line.account == a {
            line.credit
        } else {
            0
        }),
{
    if has_account(bals, line.account) {
        lemma_account_index_props(bals, line.account);
        let k = account_index(bals, line.account);
        lemma_account_in_update(
            bals,
            k,
            BalanceModel {
                account: line.account,
                debit: bals[k].debit + line.debit,
                credit: bals[k].credit + line.credit,
            },
            a,
        );
    } else {
        let pushed = bals.push(
            BalanceModel { account: line.account, debit: line.debit, credit: line.credit },
        );
        assert(pushed.drop_last() =~= bals);
    }
}

/// The sums of lines touching an account can also be peeled off at the
/// front.
proof fn lemma_for_drop_first(lines: Seq<LineModel>, a: Seq<char>)
    requires
        lines.len() > 0,
    ensures
        debits_for(lines, a) == (if lines[0].account == a {
            lines[0].debit
        } else {
            0
        }) + debits_for(lines.drop_first(), a),
        credits_for(lines, a) == (if lines[0].account == a {
            lines[0].credit
        } else {
            0
        }) + credits_for(lines.drop_first(), a),
    decreases lines.len(),
{
    if lines.len() == 1 {
        assert(lines.drop_first() =~= Seq::<LineModel>::empty());
        assert(lines.drop_last() =~= Seq::<LineModel>::empty());
    } else {
        lemma_for_drop_first(lines.drop_last(), a);
        assert(lines.drop_last().drop_first() =~= lines.drop_first().drop_last());
        assert(lines.drop_last()[0] == lines[0]);
        assert(lines.drop_first().last() == lines.last());
    }
}

/// Posting a list of lines moves each account's totals by exactly the
/// sums of the lines that touch that account.
pub proof fn lemma_post_lines_account(bals: Seq<BalanceModel>, lines: Seq<LineModel>, a: Seq<char>)
    ensures
        account_debit_in(post_lines(bals, lines), a) == account_debit_in(bals, a) + debits_for(
            lines,
            a,
        ),
        account_credit_in(post_lines(bals, lines), a) == account_credit_in(bals, a) + credits_for(
            lines,
            a,
        ),
    decreases lines.len(),
{
    if lines.len() == 0 {
    } else {
        lemma_for_drop_first(lines, a);
        lemma_apply_line_account(bals, lines[0], a);
        lemma_post_lines_account(apply_line(bals, lines[0]), lines.drop_first(), a);
    }
}

/// Posting the same lines twice is not idempotent: the second posting
/// moves every account's totals, and the trial-balance totals, by the
/// lines' sums once more, so the deltas double.
pub proof fn lemma_post_twice_doubles(bals: Seq<BalanceModel>, lines: Seq<LineModel>, a: Seq<char>)
    ensures
        account_debit_in(post_lines(post_lines(bals, lines), lines), a) == account_debit_in(
            bals,
            a,
        ) + 2 * debits_for(lines, a),
        account_credit_in(post_lines(post_lines(bals, lines), lines), a) == account_credit_in(
            bals,
            a,
        ) + 2 * credits_for(lines, a),
        total_debit_of(post_lines(post_lines(bals, lines), lines)) == total_debit_of(bals) + 2
            * sum_debits(lines),
        total_credit_of(post_lines(post_lines(bals, lines), lines)) == total_credit_of(bals) + 2
            * sum_credits(lines),
{
    lemma_post_lines_account(bals, lines, a);
    lemma_post_lines_account(post_lines(bals, lines), lines, a);
    lemma_post_lines_totals(bals, lines);
    lemma_post_lines_totals(post_lines(bals, lines), lines);
}

/// The rows carry pairwise distinct accounts: the ledger is a mapping.
pub open spec fn distinct_accounts(bals: Seq<BalanceModel>) -> bool {
    forall|i: int, j: int| 0 <= i < j < bals.len() ==> (#[trigger] bals[i]).account != (
    #[trigger] bals[j]).account
}

/// Posting never creates a second row for an account that has one.
pub proof fn lemma_post_lines_distinct(bals: Seq<BalanceModel>, lines: Seq<LineModel>)
    requires
        distinct_accounts(bals),
    ensures
        distinct_accounts(post_lines(bals, lines)),
    decreases lines.len(),
{
    if lines.len() == 0 {
    } else {
        lemma_apply_line_distinct(bals, lines[0]);
        lemma_post_lines_distinct(apply_line(bals, lines[0]), lines.drop_first());
    }
}

/// One posting step keeps the rows' accounts pairwise distinct.
proof fn lemma_apply_line_distinct(bals: Seq<BalanceModel>, line: LineModel)
    requires
        distinct_accounts(bals),
    ensures
        distinct_accounts(apply_line(bals, line)),
{
    if has_account(bals, line.account) {
        lemma_account_index_props(bals, line.account);
    } else {
        let pushed = apply_line(bals, line);
        assert forall|i: int, j: int| 0 <= i < j < pushed.len() implies (
        #[trigger] pushed[i]).account != (#[trigger] pushed[j]).account by {
            if j == pushed.len() - 1 {
                assert(pushed[i] == bals[i]);
                assert(!(bals[i].account == line.account));
            }
        }
    }
}

/// No row carries the account: its totals among the rows are zero.
proof fn lemma_account_in_absent(bals: Seq<BalanceModel>, a: Seq<char>)
    requires
        forall|i: int| 0 <= i < bals.len() ==> (#[trigger] bals[i]).account != a,
    ensures
        account_debit_in(bals, a) == 0,
        account_credit_in(bals, a) == 0,
    decreases bals.len(),
{
    if bals.len() == 0 {
    } else {
        assert forall|i: int| 0 <= i < bals.drop_last().len() implies (
        #[trigger] bals.drop_last()[i]).account != a by {
            assert(bals.drop_last()[i] == bals[i]);
        }
        lemma_account_in_absent(bals.drop_last(), a);
        assert(bals.last() == bals[bals.len() - 1]);
    }
}

/// In a ledger with one row per account, the row found for an account
/// holds exactly that account's accumulated totals.
pub proof fn lemma_account_row_value(bals: Seq<BalanceModel>, a: Seq<char>)
    requires
        distinct_accounts(bals),
        has_account(bals, a),
    ensures
        account_debit_in(bals, a) == bals[account_index(bals, a)].debit,
        account_credit_in(bals, a) == bals[account_index(bals, a)].credit,
{
    lemma_account_index_props(bals, a);
    lemma_account_in_unique(bals, a, account_index(bals, a));
}

/// Any row carrying the account in a distinct ledger holds the whole of
/// that account's totals.
proof fn lemma_account_in_unique(bals: Seq<BalanceModel>, a: Seq<char>, i: int)
    requires
        distinct_accounts(bals),
        0 <= i < bals.len(),
        bals[i].account == a,
    ensures
        account_debit_in(bals, a) == bals[i].debit,
        account_credit_in(bals, a) == bals[i].credit,
    decreases bals.len(),
{
    if i == bals.len() - 1 {
        assert forall|k: int| 0 <= k < bals.drop_last().len() implies (
        #[trigger] bals.drop_last()[k]).account != a by {
            assert(bals.drop_last()[k] == bals[k]);
        }
        lemma_account_in_absent(bals.drop_last(), a);
        assert(bals.last() == bals[i]);
    } else {
        assert(bals.last() == bals[bals.len() - 1]);
        assert(bals.last().account != a);
        assert forall|p: int, q: int| 0 <= p < q < bals.drop_last().len() implies (
        #[trigger] bals.drop_last()[p]).account != (#[trigger] bals.drop_last()[q]).account by {
            assert(bals.drop_last()[p] == bals[p]);
            assert(bals.drop_last()[q] == bals[q]);
        }
        assert(bals.drop_last()[i] == bals[i]);
        lemma_account_in_unique(bals.drop_last(), a, i);
    }
}

} // verus!
