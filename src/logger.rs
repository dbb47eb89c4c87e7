use vstd::prelude::*;

use crate::lexer::decimal;

verus! {

/// An append-only record of individual die results, in the order in which
/// the dice were rolled.
#[derive(Debug, Default)]
pub struct DiceLogger {
    data: Vec<u32>,
}

impl View for DiceLogger {
    type V = Seq<u32>;

    closed spec fn view(&self) -> Seq<u32> {
        self.data@
    }
}

/// The results in decimal, separated by a comma and a space.
pub open spec fn joined(s: Seq<u32>) -> Seq<char>
    decreases s.len(),
{
    if s.len() == 0 {
        Seq::empty()
    } else if s.len() == 1 {
        decimal(s[0] as nat)
    } else {
        joined(s.drop_last()) + seq![',', ' '] + decimal(s.last() as nat)
    }
}

/// How a record reads: its results joined, or a note that none were rolled.
pub open spec fn rendering(s: Seq<u32>) -> Seq<char> {
    if s.len() == 0 {
        "No dice rolled"@
    } else {
        joined(s)
    }
}

/// Relies on `u32`'s `to_string`: the decimal digits of `n`, without sign or
/// leading zeros.
#[verifier::external_body]
fn decimal_text(n: u32) -> (r: String)
    ensures
        r@ == decimal(n as nat),
{
    n.to_string()
}

impl Clone for DiceLogger {
    /// A logger with the same results.
    fn clone(&self) -> (r: Self)
        ensures
            r@ == self@,
    {
        let data = self.data.clone();
        assert(data@ =~= self.data@);
        DiceLogger { data }
    }
}

impl DiceLogger {
    /// An empty logger.
    pub fn new() -> (r: Self)
        ensures
            r@ == Seq::<u32>::empty(),
    {
        DiceLogger { data: Vec::new() }
    }

    /// Moves all of `collection` to the end of the record, in order.
    pub fn append(&mut self, collection: &mut Vec<u32>)
        ensures
            final(self)@ == old(self)@ + old(collection)@,
            final(collection)@ == Seq::<u32>::empty(),
    {
        self.data.append(collection);
    }

    /// The results recorded so far.
    pub fn rolls(&self) -> (r: &Vec<u32>)
        ensures
            r@ == self@,
    {
        &self.data
    }

    /// The number of results recorded so far.
    pub fn len(&self) -> (r: usize)
        ensures
            r == self@.len(),
    {
        self.data.len()
    }

    /// The results as text, such as `3, 6, 1`; `No dice rolled` when there
    /// are none.
    pub fn render(&self) -> (r: String)
        ensures
            r@ == rendering(self@),
    {
        let n = self.data.len();
        if n == 0 {
            return String::from_str("No dice rolled");
        }
        let first = decimal_text(self.data[0]);
        let mut out = first;
        let mut i: usize = 1;
        proof {
            reveal_strlit(", ");
            assert(self.data@.take(1).len() == 1);
        }
        while i < n
            invariant
                n == self.data@.len(),
                1 <= i <= n,
                out@ == joined(self.data@.take(i as int)),
                ", "@ == seq![',', ' '],
            decreases n - i,
        {
            let t = decimal_text(self.data[i]);
            out.append(", ");
            out.append(t.as_str());
            proof {
                let s = self.data@.take(i + 1);
                assert(s.drop_last() =~= self.data@.take(i as int));
                assert(s.last() == self.data@[i as int]);
            }
            i = i + 1;
        }
        assert(self.data@.take(n as int) =~= self.data@);
        out
    }

    /// The record, taken out of the logger.
    pub fn into_vec(self) -> (r: Vec<u32>)
        ensures
            r@ == self@,
    {
        self.data
    }
}

} // verus!
