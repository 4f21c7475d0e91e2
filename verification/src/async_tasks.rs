//! State of a background task demo: its status and the result it produced.

use vstd::prelude::*;

verus! {

/// Where a task is in its life.
#[derive(Clone, Debug, PartialEq, Eq, Structural)]
pub enum TaskStatus {
    Idle,
    Running,
    Complete,
    Cancelled,
}

/// State for the async demo, tracking task status and results.
pub struct AsyncDemo {
    status: TaskStatus,
    result: Option<String>,
}

impl AsyncDemo {
    /// The status the demo is in.
    pub closed spec fn spec_status(&self) -> TaskStatus {
        self.status
    }

    /// The result text held by the demo, if any.
    pub closed spec fn spec_result(&self) -> Option<Seq<char>> {
        match self.result {
            Some(s) => Some(s@),
            None => None,
        }
    }

    pub fn new() -> (demo: Self)
        ensures
            demo.spec_status() == TaskStatus::Idle,
            demo.spec_result() is None,
    {
        AsyncDemo { status: TaskStatus::Idle, result: None }
    }

    pub fn status(&self) -> (s: &TaskStatus)
        ensures
            *s == self.spec_status(),
    {
        &self.status
    }

    pub fn result(&self) -> (r: Option<&str>)
        ensures
            match r {
                Some(s) => self.spec_result() == Some(s@),
                None => self.spec_result() is None,
            },
    {
        match &self.result {
            Some(s) => Some(s.as_str()),
            None => None,
        }
    }

    /// Set status to Running.
    pub fn start(&mut self)
        ensures
            final(self).spec_status() == TaskStatus::Running,
            final(self).spec_result() == old(self).spec_result(),
    {
        self.status = TaskStatus::Running;
    }

    /// Set status to Complete with a result.
    pub fn complete(&mut self, result: String)
        ensures
            final(self).spec_status() == TaskStatus::Complete,
            final(self).spec_result() == Some(result@),
    {
        self.status = TaskStatus::Complete;
        self.result = Some(result);
    }

    /// Set status to Cancelled.
    pub fn cancel(&mut self)
        ensures
            final(self).spec_status() == TaskStatus::Cancelled,
            final(self).spec_result() == old(self).spec_result(),
    {
        self.status = TaskStatus::Cancelled;
    }
}

/// The character of a decimal digit.
pub open spec fn digit_char(d: nat) -> char {
    if d == 0 { '0' }
    else if d == 1 { '1' }
    else if d == 2 { '2' }
    else if d == 3 { '3' }
    else if d == 4 { '4' }
    else if d == 5 { '5' }
    else if d == 6 { '6' }
    else if d == 7 { '7' }
    else if d == 8 { '8' }
    else { '9' }
}

/// Decimal digits of a natural number, most significant first, no leading zeros.
pub open spec fn decimal_digits(n: nat) -> Seq<char>
    decreases n,
{
    if n < 10 {
        seq![digit_char(n)]
    } else {
        decimal_digits(n / 10).push(digit_char(n % 10))
    }
}

/// Decimal text of an integer, with a leading `-` when it is negative.
pub open spec fn decimal_text(i: int) -> Seq<char> {
    if i < 0 {
        seq!['-'] + decimal_digits((-i) as nat)
    } else {
        decimal_digits(i as nat)
    }
}

/// The text produced by `heavy_computation` for `input`.
pub open spec fn computation_text(input: int) -> Seq<char> {
    "computed result for "@ + decimal_text(input)
}

fn digit_str(d: u64) -> (s: &'static str)
    requires
        d < 10,
    ensures
        s@ == seq![digit_char(d as nat)],
{
    proof {
        reveal_strlit("0");
        reveal_strlit("1");
        reveal_strlit("2");
        reveal_strlit("3");
        reveal_strlit("4");
        reveal_strlit("5");
        reveal_strlit("6");
        reveal_strlit("7");
        reveal_strlit("8");
        reveal_strlit("9");
    }
    if d == 0 { "0" }
    else if d == 1 { "1" }
    else if d == 2 { "2" }
    else if d == 3 { "3" }
    else if d == 4 { "4" }
    else if d == 5 { "5" }
    else if d == 6 { "6" }
    else if d == 7 { "7" }
    else if d == 8 { "8" }
    else { "9" }
}

fn push_decimal_digits(out: &mut String, n: u64)
    ensures
        final(out)@ == old(out)@ + decimal_digits(n as nat),
    decreases n,
{
    if n >= 10 {
        push_decimal_digits(out, n / 10);
    }
    out.append(digit_str(n % 10));
}

/// Pure function: a "heavy computation" that can run on background thread.
/// Returns a result string after processing.
pub fn heavy_computation(input: i32) -> (r: String)
    ensures
        r@ == computation_text(input as int),
{
    let mut out = String::from_str("computed result for ");
    if input < 0 {
        out.append("-");
        let magnitude: u64 = (0i64 - (input as i64)) as u64;
        push_decimal_digits(&mut out, magnitude);
    } else {
        push_decimal_digits(&mut out, input as u64);
    }
    proof {
        reveal_strlit("-");
    }
    out
}

} // verus!
