//! A last-in-first-out stack of `i32` values that reports the greatest value
//! it currently holds in constant time.

use vstd::prelude::*;

verus! {

/// The greatest value in a non-empty sequence.
pub open spec fn seq_max(s: Seq<i32>) -> i32
    recommends
        s.len() > 0,
    decreases s.len(),
{
    if s.len() <= 1 {
        s[0]
    } else if s.last() >= seq_max(s.drop_last()) {
        s.last()
    } else {
        seq_max(s.drop_last())
    }
}

/// The running-maximum record kept for a stack holding `s`: every pushed value
/// that was at least as large as the maximum of everything below it at the
/// moment it arrived, in push order. Ties are recorded again, so each copy of
/// the maximum has its own entry.
pub open spec fn maxima_of(s: Seq<i32>) -> Seq<i32>
    decreases s.len(),
{
    if s.len() == 0 {
        Seq::empty()
    } else {
        let rest = maxima_of(s.drop_last());
        if rest.len() == 0 || s.last() >= rest.last() {
            rest.push(s.last())
        } else {
            rest
        }
    }
}

/// The running-maximum record is empty exactly when the stack is empty, and
/// its top entry is the maximum of the whole stack.
pub proof fn lemma_maxima_of_last(s: Seq<i32>)
    ensures
        maxima_of(s).len() == 0 <==> s.len() == 0,
        s.len() > 0 ==> maxima_of(s).last() == seq_max(s),
    decreases s.len(),
{
    if s.len() > 0 {
        lemma_maxima_of_last(s.drop_last());
    }
}

/// The shape of the running-maximum record: it is non-decreasing from bottom
/// to top, and never longer than the stack it tracks.
pub proof fn lemma_maxima_of_shape(s: Seq<i32>)
    ensures
        forall|i: int, j: int|
            0 <= i <= j < maxima_of(s).len() ==> maxima_of(s)[i] <= maxima_of(s)[j],
        maxima_of(s).len() <= s.len(),
    decreases s.len(),
{
    if s.len() > 0 {
        let rest = maxima_of(s.drop_last());
        let m = maxima_of(s);
        lemma_maxima_of_shape(s.drop_last());
        if rest.len() == 0 || s.last() >= rest.last() {
            assert(m == rest.push(s.last()));
            assert forall|i: int, j: int| 0 <= i <= j < m.len() implies m[i] <= m[j] by {
                if j < m.len() - 1 {
                    assert(m[i] == rest[i] && m[j] == rest[j]);
                } else if i < m.len() - 1 {
                    assert(m[i] == rest[i]);
                    assert(rest[i] <= rest[rest.len() - 1]);
                }
            }
        }
    }
}

/// `seq_max` really is the maximum: it occurs in the sequence, and no element
/// exceeds it. So after any run of pushes, the value reported as the maximum
/// is the greatest value pushed.
pub proof fn lemma_seq_max_is_maximum(s: Seq<i32>)
    requires
        s.len() > 0,
    ensures
        s.contains(seq_max(s)),
        forall|i: int| 0 <= i < s.len() ==> s[i] <= seq_max(s),
    decreases s.len(),
{
    if s.len() == 1 {
        assert(s[0] == seq_max(s));
        assert(s.contains(seq_max(s)));
    } else {
        let prefix = s.drop_last();
        lemma_seq_max_is_maximum(prefix);
        assert forall|i: int| 0 <= i < s.len() implies s[i] <= seq_max(s) by {
            if i < s.len() - 1 {
                assert(s[i] == prefix[i]);
            }
        }
        if s.last() >= seq_max(prefix) {
            assert(s[s.len() - 1] == seq_max(s));
        } else {
            let j = choose|j: int| 0 <= j < prefix.len() && prefix[j] == seq_max(prefix);
            assert(s[j] == seq_max(s));
        }
        assert(s.contains(seq_max(s)));
    }
}

/// How pushing changes the maximum: a value at least as large as the current
/// maximum (or pushed onto an empty stack) becomes the new maximum; a smaller
/// value leaves the maximum unchanged.
pub proof fn lemma_seq_max_push(s: Seq<i32>, v: i32)
    ensures
        s.len() == 0 ==> seq_max(s.push(v)) == v,
        s.len() > 0 && v >= seq_max(s) ==> seq_max(s.push(v)) == v,
        s.len() > 0 && v < seq_max(s) ==> seq_max(s.push(v)) == seq_max(s),
{
    assert(s.push(v).drop_last() =~= s);
    assert(s.push(v).last() == v);
}

/// Pushing a copy of the current maximum and then popping it restores the
/// previous stack, so the maximum is left unchanged: the surviving copy (or
/// whatever else was the maximum before) still determines it.
pub proof fn lemma_duplicate_max(s: Seq<i32>)
    requires
        s.len() > 0,
    ensures
        seq_max(s.push(seq_max(s))) == seq_max(s),
        s.push(seq_max(s)).drop_last() == s,
{
    lemma_seq_max_push(s, seq_max(s));
    assert(s.push(seq_max(s)).drop_last() =~= s);
}

/// Reads are idempotent: a query that reports a fixed value `x` of the state
/// `s` when the stack is non-empty, and absence when it is empty, admits only
/// one result. Two calls of `peek` (where `x` is the top) or of `get_max`
/// (where `x` is the maximum) with no intervening push or pop therefore
/// return the same value.
pub proof fn lemma_report_unique(s: Seq<i32>, x: i32, r1: Option<i32>, r2: Option<i32>)
    requires
        (match r1 {
            Some(v) => s.len() > 0 && v == x,
            None => s.len() == 0,
        }),
        (match r2 {
            Some(v) => s.len() > 0 && v == x,
            None => s.len() == 0,
        }),
    ensures
        r1 == r2,
{
}

/// A stack of `i32` with constant-time access to its maximum.
///
/// Beside the stack proper it keeps a second, internal stack of running
/// maxima; the top of that record is always the maximum of every value still
/// present. The abstract value of a `StackMax`, written `s@`, is the sequence
/// of its elements from bottom to top.
pub struct StackMax {
    numbers: Vec<i32>,
    maximums: Vec<i32>,
}

impl View for StackMax {
    type V = Seq<i32>;

    closed spec fn view(&self) -> Seq<i32> {
        self.numbers@
    }
}

impl StackMax {
    /// The running-maximum record matches the push history exactly.
    pub closed spec fn wf(&self) -> bool {
        self.maximums@ == maxima_of(self.numbers@)
    }

    /// Returns a new, empty `StackMax`.
    pub fn new() -> (s: StackMax)
        ensures
            s.wf(),
            s@ == Seq::<i32>::empty(),
    {
        StackMax { numbers: Vec::new(), maximums: Vec::new() }
    }

    /// Appends `number` to the top of the stack. If `number` is at least the
    /// current maximum, or the stack was empty, it is also recorded as a new
    /// running maximum.
    pub fn push(&mut self, number: i32)
        requires
            old(self).wf(),
        ensures
            final(self).wf(),
            final(self)@ == old(self)@.push(number),
    {
        self.numbers.push(number);

        let record_count = self.maximums.len();
        if record_count == 0 || number >= self.maximums[record_count - 1] {
            self.maximums.push(number);
        }

        proof {
            assert(self.numbers@.drop_last() =~= old(self).numbers@);
        }
    }

    /// Returns the number of elements in the stack.
    pub fn len(&self) -> (n: usize)
        ensures
            n == self@.len(),
    {
        self.numbers.len()
    }

    /// Returns a reference to the top element without removing it, or an
    /// absent result if the stack is empty.
    pub fn peek(&self) -> (r: Option<&i32>)
        ensures
            match r {
                Some(v) => self@.len() > 0 && *v == self@.last(),
                None => self@.len() == 0,
            },
    {
        self.numbers.as_slice().last()
    }

    /// Returns a reference to the greatest element currently in the stack, or
    /// an absent result if the stack is empty.
    pub fn get_max(&self) -> (r: Option<&i32>)
        requires
            self.wf(),
        ensures
            match r {
                Some(m) => self@.len() > 0 && *m == seq_max(self@),
                None => self@.len() == 0,
            },
    {
        proof {
            lemma_maxima_of_last(self.numbers@);
        }
        self.maximums.as_slice().last()
    }

    /// Removes and returns the top element, or returns an absent result and
    /// changes nothing if the stack is empty. When the removed value equals
    /// the current maximum, its entry in the running-maximum record is removed
    /// with it, so the record's top falls back to the maximum of what remains.
    pub fn pop(&mut self) -> (r: Option<i32>)
        requires
            old(self).wf(),
        ensures
            final(self).wf(),
            old(self)@.len() == 0 ==> r is None && final(self)@ == old(self)@,
            old(self)@.len() > 0 ==> r == Some(old(self)@.last())
                && final(self)@ == old(self)@.drop_last()
                && final(self)@.len() == old(self)@.len() - 1,
    {
        proof {
            lemma_maxima_of_last(self.numbers@);
        }
        let last_number = self.numbers.pop();

        match last_number {
            None => None,
            Some(value) => {
                proof {
                    assert(old(self).numbers@.drop_last() =~= self.numbers@);
                }
                let record_count = self.maximums.len();
                if value == self.maximums[record_count - 1] {
                    self.maximums.pop();
                    proof {
                        assert(self.maximums@ =~= maxima_of(self.numbers@));
                    }
                }
                Some(value)
            }
        }
    }
}

} // verus!
