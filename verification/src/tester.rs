//! Checking a learner's program against a level's tests: each test becomes
//! a program whose `main` compares what `test` returns with the expected
//! value, and the outcomes of the runs are tallied.
use vstd::prelude::*;
use crate::errors::{CompileError, errors_view};
use crate::text::{chars_of, decimal, push_decimal, string_from, string_of};

verus! {

/// The outcome of checking a program against a level.
pub struct TestResult {
    pub success: bool,
    pub errors: Vec<CompileError>,
    pub correct: u32,
    pub incorrect: u32,
}

/// Each input text followed by `", "`, in order.
pub open spec fn joined(inputs: Seq<Seq<char>>) -> Seq<char>
    decreases inputs.len(),
{
    if inputs.len() == 0 {
        Seq::empty()
    } else {
        joined(inputs.drop_last()) + inputs.last() + ", "@
    }
}

/// The arguments of the call to `test`: the inputs joined by `", "`, with
/// the last space dropped (the last comma stays).
pub open spec fn argument_text(inputs: Seq<Seq<char>>) -> Seq<char> {
    if inputs.len() == 0 {
        Seq::empty()
    } else {
        joined(inputs).drop_last()
    }
}

/// The program run for one test: the learner's code, then a `main` that
/// returns 0 when `test` gives the expected value and 1 otherwise.
pub open spec fn driver_text(code: Seq<char>, inputs: Seq<Seq<char>>, output: Seq<char>) -> Seq<
    char,
> {
    code + "fun main() -> int { if test("@ + argument_text(inputs) + ") == "@ + output
        + " { return 0; } return 1; }"@
}

/// The program run for one test: see [`driver_text`].
pub fn driver_source(code: &String, inputs: &Vec<String>, output: &String) -> (r: String)
    ensures
        r@ == driver_text(code@, inputs@.map_values(|s: String| s@), output@),
{
    let ghost iv = inputs@.map_values(|s: String| s@);
    let mut chars: Vec<char> = Vec::new();
    let mut j: usize = 0;
    proof {
        assert(iv.take(0) =~= Seq::<Seq<char>>::empty());
    }
    while j < inputs.len()
        invariant
            j <= inputs@.len(),
            iv == inputs@.map_values(|s: String| s@),
            chars@ == joined(iv.take(j as int)),
        decreases inputs@.len() - j,
    {
        let piece = chars_of(inputs[j].as_str());
        let mut k: usize = 0;
        let ghost start = chars@;
        while k < piece.len()
            invariant
                k <= piece@.len(),
                chars@ == start + piece@.take(k as int),
            decreases piece@.len() - k,
        {
            chars.push(piece[k]);
            k = k + 1;
            proof {
                assert(chars@ =~= start + piece@.take(k as int));
            }
        }
        chars.push(',');
        chars.push(' ');
        proof {
            assert(piece@.take(piece@.len() as int) =~= piece@);
            assert(iv.take(j + 1).drop_last() =~= iv.take(j as int));
            assert(iv.take(j + 1).last() == inputs@[j as int]@);
            reveal_strlit(", ");
            assert(chars@ =~= joined(iv.take(j as int)) + inputs@[j as int]@ + ", "@);
        }
        j = j + 1;
    }
    proof {
        assert(iv.take(j as int) =~= iv);
    }
    if inputs.len() > 0 {
        proof {
            reveal_strlit(", ");
            assert(joined(iv).len() >= 2);
        }
        chars.pop();
    }
    proof {
        assert(chars@ =~= argument_text(iv));
    }
    let args = string_of(&chars);
    let mut s = code.clone();
    s.append("fun main() -> int { if test(");
    s.append(args.as_str());
    s.append(") == ");
    s.append(output.as_str());
    s.append(" { return 0; } return 1; }");
    s
}

/// The running tally of a level's tests.
pub struct TestTally {
    pub correct: usize,
    pub errors: Vec<CompileError>,
}

impl TestTally {
    pub fn new() -> (r: Self)
        ensures
            r.correct == 0,
            r.errors@.len() == 0,
    {
        TestTally { correct: 0, errors: Vec::new() }
    }

    /// Records the outcome of one test's run: `Ok(Some(v))` for a program
    /// that returned `v`, `Ok(None)` for one that did not finish in time,
    /// `Err` for compile errors. A run that returned 0 passed; the compile
    /// errors of the first test that had them are kept.
    pub fn record(&mut self, outcome: Result<Option<i32>, Vec<CompileError>>)
        requires
            old(self).correct < usize::MAX,
        ensures
            outcome matches Ok(Some(v)) && v == 0 ==> final(self).correct == old(self).correct + 1
                && final(self).errors == old(self).errors,
            !(outcome matches Ok(Some(v)) && v == 0) ==> final(self).correct == old(self).correct,
            (outcome matches Err(e) && old(self).errors@.len() == 0) ==> (outcome matches Err(e)
                && final(self).errors@ == e@),
            !(outcome is Err && old(self).errors@.len() == 0) ==> final(self).errors
                == old(self).errors,
    {
        match outcome {
            Ok(Some(x)) => {
                if x == 0 {
                    self.correct = self.correct + 1;
                }
            },
            Err(e) => {
                if self.errors.len() == 0 {
                    self.errors = e;
                }
            },
            _ => {},
        }
    }

    /// The result over `length - 1` tests (the level's count is at index 0
    /// of its list of tests): success when every test passed.
    pub fn finish(self, length: usize) -> (r: TestResult)
        requires
            1 <= length,
            self.correct <= length - 1,
        ensures
            r.success == (self.correct == length - 1),
            r.errors == self.errors,
            r.correct == self.correct as u32,
            r.incorrect == (length - 1 - self.correct) as u32,
    {
        TestResult {
            success: self.correct == length - 1,
            errors: self.errors,
            correct: self.correct as u32,
            incorrect: (length - 1 - self.correct) as u32,
        }
    }
}

/// The first line of a level's report: whether every test passed.
pub open spec fn verdict_text(success: bool) -> Seq<char> {
    if success {
        "You Won!\n"@
    } else {
        "You LOSE! LOL!\n"@
    }
}

/// The last line of a level's report: the counts of tests passed and failed.
pub open spec fn tally_text(correct: u32, incorrect: u32) -> Seq<char> {
    "Correct: "@ + decimal(correct as nat) + " |#| Incorrect: "@ + decimal(incorrect as nat)
}

/// The first line of the report on a result.
pub fn verdict_line(r: &TestResult) -> (s: String)
    ensures
        s@ == verdict_text(r.success),
{
    if r.success {
        string_from("You Won!\n")
    } else {
        string_from("You LOSE! LOL!\n")
    }
}

/// The last line of the report on a result.
pub fn tally_line(r: &TestResult) -> (s: String)
    ensures
        s@ == tally_text(r.correct, r.incorrect),
{
    let mut s = string_from("Correct: ");
    push_decimal(&mut s, r.correct as u64);
    s.append(" |#| Incorrect: ");
    push_decimal(&mut s, r.incorrect as u64);
    s
}

} // verus!
