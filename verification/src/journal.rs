use vstd::prelude::*;
use crate::account::AccountCode;
use crate::amount::Amount;
use crate::date::Date;
use crate::errors::LedgerError;

verus! {

/// The mathematical content of one journal line: the account it touches
/// and its two sides as unbounded integers of minor units.
pub ghost struct LineModel {
    pub account: Seq<char>,
    pub debit: int,
    pub credit: int,
}

/// One debit or credit posting against one account.
///
/// Both sides are kept (a line may carry a debit, a credit, both zero, or
/// even both nonzero; nothing forbids the last).
#[derive(Debug)]
pub struct JournalLine {
    pub account: AccountCode,
    pub debit: Amount,
    pub credit: Amount,
}

impl View for JournalLine {
    type V = LineModel;

    open spec fn view(&self) -> LineModel {
        LineModel { account: self.account@, debit: self.debit@, credit: self.credit@ }
    }
}

impl Clone for JournalLine {
    fn clone(&self) -> (r: Self)
        ensures
            r@ == self@,
    {
        JournalLine { account: self.account.clone(), debit: self.debit, credit: self.credit }
    }
}

impl JournalLine {
    /// Accepts the line only when both sides are at or above zero. A
    /// lone negative side is the amount reported; when both sides are
    /// negative, the maximum of the two (the less negative value) is.
    pub fn new(account: AccountCode, debit: Amount, credit: Amount) -> (r: Result<
        JournalLine,
        LedgerError,
    >)
        ensures
            r is Ok <==> (debit@ >= 0 && credit@ >= 0),
            r matches Ok(l) ==> l@ == (LineModel {
                account: account@,
                debit: debit@,
                credit: credit@,
            }),
            debit@ < 0 && credit@ >= 0 ==> r == Err::<JournalLine, LedgerError>(
                LedgerError::NegativeAmount(debit),
            ),
            debit@ >= 0 && credit@ < 0 ==> r == Err::<JournalLine, LedgerError>(
                LedgerError::NegativeAmount(credit),
            ),
            debit@ < 0 && credit@ < 0 ==> r == Err::<JournalLine, LedgerError>(
                LedgerError::NegativeAmount(
                    if debit@ >= credit@ {
                        debit
                    } else {
                        credit
                    },
                ),
            ),
    {
        if debit.is_negative() && credit.is_negative() {
            let bad = if debit.0 >= credit.0 {
                debit
            } else {
                credit
            };
            return Err(LedgerError::NegativeAmount(bad));
        }
        if debit.is_negative() {
            return Err(LedgerError::NegativeAmount(debit));
        }
        if credit.is_negative() {
            return Err(LedgerError::NegativeAmount(credit));
        }
        Ok(JournalLine { account, debit, credit })
    }
}

/// The lines of a journal entry, seen as their models.
pub open spec fn line_models(lines: Seq<JournalLine>) -> Seq<LineModel> {
    lines.map_values(|l: JournalLine| l@)
}

/// Both sides of the line are at or above zero.
pub open spec fn line_nonneg(l: LineModel) -> bool {
    l.debit >= 0 && l.credit >= 0
}

/// Every line has both sides at or above zero.
pub open spec fn all_nonneg(lines: Seq<LineModel>) -> bool {
    forall|i: int| 0 <= i < lines.len() ==> line_nonneg(#[trigger] lines[i])
}

/// The leftmost line with a negative side, if any.
pub open spec fn first_negative(lines: Seq<LineModel>) -> Option<LineModel>
    decreases lines.len(),
{
    if lines.len() == 0 {
        None
    } else if !line_nonneg(lines[0]) {
        Some(lines[0])
    } else {
        first_negative(lines.drop_first())
    }
}

/// The total of the debit sides.
pub open spec fn sum_debits(lines: Seq<LineModel>) -> int
    decreases lines.len(),
{
    if lines.len() == 0 {
        0
    } else {
        sum_debits(lines.drop_last()) + lines.last().debit
    }
}

/// The total of the credit sides.
pub open spec fn sum_credits(lines: Seq<LineModel>) -> int
    decreases lines.len(),
{
    if lines.len() == 0 {
        0
    } else {
        sum_credits(lines.drop_last()) + lines.last().credit
    }
}

/// There is no leftmost negative line exactly when no line is negative.
pub proof fn lemma_first_negative_none(lines: Seq<LineModel>)
    ensures
        first_negative(lines) is None <==> all_nonneg(lines),
    decreases lines.len(),
{
    if lines.len() == 0 {
    } else {
        lemma_first_negative_none(lines.drop_first());
        if line_nonneg(lines[0]) {
            if all_nonneg(lines) {
                assert forall|i: int| 0 <= i < lines.drop_first().len() implies line_nonneg(
                    #[trigger] lines.drop_first()[i],
                ) by {
                    assert(lines.drop_first()[i] == lines[i + 1]);
                }
                assert(all_nonneg(lines.drop_first()));
            }
            if all_nonneg(lines.drop_first()) {
                assert forall|i: int| 0 <= i < lines.len() implies line_nonneg(
                    #[trigger] lines[i],
                ) by {
                    if i > 0 {
                        assert(lines[i] == lines.drop_first()[i - 1]);
                    }
                }
            }
        }
    }
}

/// When the lines before `j` are non-negative and line `j` is not, line
/// `j` is the leftmost negative line.
pub proof fn lemma_first_negative_at(lines: Seq<LineModel>, j: int)
    requires
        0 <= j < lines.len(),
        forall|k: int| 0 <= k < j ==> line_nonneg(#[trigger] lines[k]),
        !line_nonneg(lines[j]),
    ensures
        first_negative(lines) == Some(lines[j]),
    decreases j,
{
    if j == 0 {
    } else {
        assert forall|k: int| 0 <= k < j - 1 implies line_nonneg(
            #[trigger] lines.drop_first()[k],
        ) by {
            assert(lines.drop_first()[k] == lines[k + 1]);
        }
        assert(lines.drop_first()[j - 1] == lines[j]);
        lemma_first_negative_at(lines.drop_first(), j - 1);
    }
}

/// Extending a prefix by one line adds that line's sides to the totals.
pub proof fn lemma_sum_take_succ(lines: Seq<LineModel>, j: int)
    requires
        0 <= j < lines.len(),
    ensures
        sum_debits(lines.take(j + 1)) == sum_debits(lines.take(j)) + lines[j].debit,
        sum_credits(lines.take(j + 1)) == sum_credits(lines.take(j)) + lines[j].credit,
{
    assert(lines.take(j + 1).drop_last() =~= lines.take(j));
    assert(lines.take(j + 1).last() == lines[j]);
}

/// Over non-negative lines, every prefix total stays at or below the
/// full total.
pub proof fn lemma_sum_take_le(lines: Seq<LineModel>, j: int)
    requires
        all_nonneg(lines),
        0 <= j <= lines.len(),
    ensures
        sum_debits(lines.take(j)) <= sum_debits(lines),
        sum_credits(lines.take(j)) <= sum_credits(lines),
    decreases lines.len() - j,
{
    if j == lines.len() {
        assert(lines.take(j) =~= lines);
    } else {
        lemma_sum_take_succ(lines, j);
        lemma_sum_take_le(lines, j + 1);
        assert(line_nonneg(lines[j]));
    }
}

/// The totals can also be peeled off at the front: the first line's
/// sides plus the totals of the rest.
pub proof fn lemma_sum_drop_first(lines: Seq<LineModel>)
    requires
        lines.len() > 0,
    ensures
        sum_debits(lines) == lines[0].debit + sum_debits(lines.drop_first()),
        sum_credits(lines) == lines[0].credit + sum_credits(lines.drop_first()),
    decreases lines.len(),
{
    if lines.len() == 1 {
        assert(lines.drop_first() =~= Seq::<LineModel>::empty());
        assert(lines.drop_last() =~= Seq::<LineModel>::empty());
    } else {
        lemma_sum_drop_first(lines.drop_last());
        assert(lines.drop_last().drop_first() =~= lines.drop_first().drop_last());
        assert(lines.drop_last()[0] == lines[0]);
        assert(lines.drop_first().last() == lines.last());
    }
}

/// A balanced collection of journal lines with a date and description.
///
/// `new` is the validating constructor; the fields stay public, so a
/// caller that fills them directly (for instance from decoded input)
/// bypasses validation, and `is_balanced` recomputes the check.
#[derive(Debug)]
pub struct JournalEntry {
    pub date: Date,
    pub lines: Vec<JournalLine>,
    pub description: String,
}

impl Clone for JournalEntry {
    fn clone(&self) -> (r: Self)
        ensures
            r.date == self.date,
            line_models(r.lines@) == line_models(self.lines@),
            r.description@ == self.description@,
    {
        let lines = self.lines.clone();
        proof {
            assert forall|i: int| 0 <= i < lines@.len() implies #[trigger] lines@[i]@
                == self.lines@[i]@ by {
                assert(cloned::<JournalLine>(self.lines@[i], lines@[i]));
            }
            assert(line_models(lines@) =~= line_models(self.lines@));
        }
        JournalEntry { date: self.date, lines, description: self.description.clone() }
    }
}

impl JournalEntry {
    /// The models of this entry's lines.
    pub open spec fn lines_model(&self) -> Seq<LineModel> {
        line_models(self.lines@)
    }

    /// Validates and assembles an entry: every line must have both sides
    /// at or above zero (the leftmost violation is reported, with the
    /// larger of its two sides), and the debit and credit totals must be
    /// exactly equal (otherwise both totals are reported).
    ///
    /// The bound on the totals only keeps the running sums inside the
    /// machine integers that hold them.
    pub fn new(date: Date, lines: Vec<JournalLine>, description: String) -> (r: Result<
        JournalEntry,
        LedgerError,
    >)
        requires
            first_negative(line_models(lines@)) is None ==> sum_debits(line_models(lines@))
                <= i64::MAX && sum_credits(line_models(lines@)) <= i64::MAX,
        ensures
            r is Ok <==> (first_negative(line_models(lines@)) is None && sum_debits(
                line_models(lines@),
            ) == sum_credits(line_models(lines@))),
            r matches Ok(e) ==> e.date == date && e.lines@ == lines@ && e.description@
                == description@,
            r matches Ok(e) ==> sum_debits(e.lines_model()) == sum_credits(e.lines_model()),
            first_negative(line_models(lines@)) matches Some(l) ==> (r matches Err(e)
                && e matches LedgerError::NegativeAmount(a) && a@ == (if l.debit >= l.credit {
                l.debit
            } else {
                l.credit
            })),
            (first_negative(line_models(lines@)) is None && sum_debits(line_models(lines@))
                != sum_credits(line_models(lines@))) ==> (r matches Err(e)
                && e matches LedgerError::UnbalancedEntry(d, c) && d@ == sum_debits(
                line_models(lines@),
            ) && c@ == sum_credits(line_models(lines@))),
    {
        let ghost lm = line_models(lines@);
        let n = lines.len();
        let mut j: usize = 0;
        while j < n
            invariant
                0 <= j <= n,
                n == lines@.len(),
                lm == line_models(lines@),
                forall|k: int| 0 <= k < j ==> line_nonneg(#[trigger] lm[k]),
            decreases n - j,
        {
            if lines[j].debit.is_negative() || lines[j].credit.is_negative() {
                let bad = if lines[j].debit.0 >= lines[j].credit.0 {
                    lines[j].debit
                } else {
                    lines[j].credit
                };
                proof {
                    lemma_first_negative_at(lm, j as int);
                }
                return Err(LedgerError::NegativeAmount(bad));
            }
            j += 1;
        }
        proof {
            lemma_first_negative_none(lm);
        }
        let mut total_debit: i64 = 0;
        let mut total_credit: i64 = 0;
        let mut j: usize = 0;
        while j < n
            invariant
                0 <= j <= n,
                n == lines@.len(),
                lm == line_models(lines@),
                all_nonneg(lm),
                sum_debits(lm) <= i64::MAX,
                sum_credits(lm) <= i64::MAX,
                0 <= total_debit,
                0 <= total_credit,
                total_debit == sum_debits(lm.take(j as int)),
                total_credit == sum_credits(lm.take(j as int)),
            decreases n - j,
        {
            proof {
                lemma_sum_take_succ(lm, j as int);
                lemma_sum_take_le(lm, j as int + 1);
                assert(line_nonneg(lm[j as int]));
            }
            total_debit = total_debit + lines[j].debit.0;
            total_credit = total_credit + lines[j].credit.0;
            j += 1;
        }
        proof {
            assert(lm.take(n as int) =~= lm);
        }
        if total_debit != total_credit {
            return Err(LedgerError::UnbalancedEntry(Amount(total_debit), Amount(total_credit)));
        }
        Ok(JournalEntry { date, lines, description })
    }

    /// Recomputes both totals and reports whether they match exactly.
    pub fn is_balanced(&self) -> (r: bool)
        ensures
            r == (sum_debits(self.lines_model()) == sum_credits(self.lines_model())),
    {
        let ghost lm = self.lines_model();
        let n = self.lines.len();
        let mut total_debit: i128 = 0;
        let mut total_credit: i128 = 0;
        let mut j: usize = 0;
        while j < n
            invariant
                0 <= j <= n,
                n == self.lines@.len(),
                lm == self.lines_model(),
                total_debit == sum_debits(lm.take(j as int)),
                total_credit == sum_credits(lm.take(j as int)),
                (j as int) * (i64::MIN as int) <= total_debit <= (j as int) * (i64::MAX as int),
                (j as int) * (i64::MIN as int) <= total_credit <= (j as int) * (i64::MAX as int),
            decreases n - j,
        {
            proof {
                lemma_sum_take_succ(lm, j as int);
                lemma_i64_sum_bound_step(j as int);
            }
            total_debit = total_debit + (self.lines[j].debit.0 as i128);
            total_credit = total_credit + (self.lines[j].credit.0 as i128);
            j += 1;
        }
        proof {
            assert(lm.take(n as int) =~= lm);
        }
        total_debit == total_credit
    }
}

/// Growing a running total by one more `i64` keeps it between the scaled
/// `i64` bounds, which themselves stay inside `i128`.
pub(crate) proof fn lemma_i64_sum_bound_step(j: int)
    requires
        0 <= j < 0x10000000000000000,
    ensures
        (j + 1) * (i64::MIN as int) == j * (i64::MIN as int) + (i64::MIN as int),
        (j + 1) * (i64::MAX as int) == j * (i64::MAX as int) + (i64::MAX as int),
        (j + 1) * (i64::MIN as int) >= i128::MIN as int,
        (j + 1) * (i64::MAX as int) <= i128::MAX as int,
{
    assert((j + 1) * (i64::MIN as int) == j * (i64::MIN as int) + (i64::MIN as int))
        by (nonlinear_arith);
    assert((j + 1) * (i64::MAX as int) == j * (i64::MAX as int) + (i64::MAX as int))
        by (nonlinear_arith);
    assert(0 <= j + 1 <= 0x10000000000000000 ==> (j + 1) * (i64::MIN as int) >= i128::MIN as int
        && (j + 1) * (i64::MAX as int) <= i128::MAX as int) by (nonlinear_arith);
}

} // verus!
