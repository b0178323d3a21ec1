//! A set of node indices below a bound, kept as flags with a count of those set.
use vstd::prelude::*;

verus! {

/// The number of flags that are set.
pub open spec fn count_true(s: Seq<bool>) -> nat
    decreases s.len(),
{
    if s.len() == 0 {
        0
    } else {
        count_true(s.drop_last()) + if s.last() { 1nat } else { 0nat }
    }
}

/// No more flags are set than there are flags.
pub proof fn lemma_count_le(s: Seq<bool>)
    ensures
        count_true(s) <= s.len(),
    decreases s.len(),
{
    if s.len() > 0 {
        lemma_count_le(s.drop_last());
    }
}

/// Setting a clear flag adds one to the count.
pub proof fn lemma_count_set(s: Seq<bool>, i: int)
    requires
        0 <= i < s.len(),
        !s[i],
    ensures
        count_true(s.update(i, true)) == count_true(s) + 1,
    decreases s.len(),
{
    let t = s.update(i, true);
    if i == s.len() - 1 {
        assert(t.drop_last() =~= s.drop_last());
    } else {
        assert(t.drop_last() =~= s.drop_last().update(i, true));
        lemma_count_set(s.drop_last(), i);
    }
}

/// Flags for the indices below a bound, with the number of those set.
pub struct Marks {
    flags: Vec<bool>,
    count: usize,
}

impl Marks {
    /// The flags.
    pub closed spec fn view(&self) -> Seq<bool> {
        self.flags@
    }

    /// The number of flags set.
    pub closed spec fn set_count(&self) -> nat {
        self.count as nat
    }

    /// The count agrees with the flags.
    pub closed spec fn wf(&self) -> bool {
        &&& self.count == count_true(self.flags@)
        &&& self.count <= self.flags@.len()
    }

    /// `n` clear flags.
    pub fn new(n: usize) -> (m: Marks)
        ensures
            m.wf(),
            m.view().len() == n,
            forall|i: int| 0 <= i < n ==> !(#[trigger] m.view()[i]),
            m.set_count() == 0,
    {
        let mut flags: Vec<bool> = Vec::new();
        let mut i: usize = 0;
        while i < n
            invariant
                i <= n,
                flags@.len() == i,
                forall|j: int| 0 <= j < i ==> !(#[trigger] flags@[j]),
                count_true(flags@) == 0,
            decreases n - i,
        {
            let ghost before = flags@;
            flags.push(false);
            assert(flags@.drop_last() =~= before);
            i = i + 1;
        }
        Marks { flags, count: 0 }
    }

    /// Whether flag `i` is set.
    pub fn get(&self, i: usize) -> (b: bool)
        requires
            i < self.view().len(),
        ensures
            b == self.view()[i as int],
    {
        self.flags[i]
    }

    /// Sets the clear flag `i`.
    pub fn set(&mut self, i: usize)
        requires
            old(self).wf(),
            i < old(self).view().len(),
            !old(self).view()[i as int],
        ensures
            final(self).wf(),
            final(self).view() == old(self).view().update(i as int, true),
            final(self).set_count() == old(self).set_count() + 1,
            final(self).set_count() <= final(self).view().len(),
    {
        proof {
            lemma_count_set(self.flags@, i as int);
            lemma_count_le(self.flags@.update(i as int, true));
        }
        let len = self.flags.len();
        assert(count_true(self.flags@.update(i as int, true)) <= len);
        self.flags.set(i, true);
        self.count = self.count + 1;
    }

    /// The count never exceeds the number of flags.
    pub proof fn lemma_bounded(&self)
        requires
            self.wf(),
        ensures
            self.set_count() <= self.view().len(),
    {
        lemma_count_le(self.flags@);
    }
}

} // verus!
