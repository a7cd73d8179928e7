//! The trailing window of generated bytes and its comparison with the target.

use vstd::prelude::*;

verus! {

/// `t` is a suffix of `s`.
pub open spec fn ends_with(s: Seq<u8>, t: Seq<u8>) -> bool {
    t.len() <= s.len() && s.subrange(s.len() - t.len(), s.len() as int) == t
}

/// The last `l` bytes of `s`, or all of `s` where it is shorter.
pub open spec fn window_of(s: Seq<u8>, l: nat) -> Seq<u8> {
    if s.len() <= l {
        s
    } else {
        s.subrange(s.len() - l, s.len() as int)
    }
}

/// How many bytes have left the front of a window of length `l` after `n`
/// bytes were pushed.
pub open spec fn evicted(n: nat, l: nat) -> nat {
    if n <= l {
        0
    } else {
        (n - l) as nat
    }
}

/// The window of a stream equals the target exactly when the stream ends with it.
pub proof fn lemma_window_equals_iff_ends_with(s: Seq<u8>, t: Seq<u8>)
    ensures
        (window_of(s, t.len()) == t) <==> ends_with(s, t),
{
    if s.len() <= t.len() {
        assert(s.subrange(0, s.len() as int) =~= s);
    }
}

/// Compares two byte vectors.
pub fn same_bytes(a: &Vec<u8>, b: &Vec<u8>) -> (r: bool)
    ensures
        r == (a@ == b@),
{
    if a.len() != b.len() {
        return false;
    }
    let mut i: usize = 0;
    while i < a.len()
        invariant
            a@.len() == b@.len(),
            i <= a@.len(),
            forall|j: int| 0 <= j < i ==> a@[j] == b@[j],
        decreases a@.len() - i,
    {
        if a[i] != b[i] {
            return false;
        }
        i = i + 1;
    }
    assert(a@ =~= b@);
    true
}

/// A buffer of the most recent bytes, never longer than the target, and the
/// number of bytes that have left its front.
pub struct SlidingWindow {
    target: Vec<u8>,
    buffer: Vec<u8>,
    offset: u64,
    history: Ghost<Seq<u8>>,
}

impl SlidingWindow {
    /// The byte sequence searched for.
    pub closed spec fn target_view(&self) -> Seq<u8> {
        self.target@
    }

    /// The bytes currently held.
    pub closed spec fn buffer_view(&self) -> Seq<u8> {
        self.buffer@
    }

    /// The number of bytes evicted from the front so far.
    pub closed spec fn offset_view(&self) -> nat {
        self.offset as nat
    }

    /// Every byte pushed so far, oldest first.
    pub closed spec fn history(&self) -> Seq<u8> {
        self.history@
    }

    /// The buffer is the trailing window of what was pushed, and the offset
    /// counts what left it.
    pub open spec fn wf(&self) -> bool {
        &&& self.buffer_view() == window_of(self.history(), self.target_view().len())
        &&& self.buffer_view().len() <= self.target_view().len()
        &&& self.offset_view() == evicted(self.history().len(), self.target_view().len())
        &&& self.history().len() <= u64::MAX
    }

    /// An empty window for `target`.
    pub fn new(target: Vec<u8>) -> (r: SlidingWindow)
        ensures
            r.wf(),
            r.target_view() == target@,
            r.history() == Seq::<u8>::empty(),
            r.buffer_view() == Seq::<u8>::empty(),
            r.offset_view() == 0,
    {
        SlidingWindow { target, buffer: Vec::new(), offset: 0, history: Ghost(Seq::empty()) }
    }

    /// Appends `byte`, evicts the oldest byte if the buffer became longer
    /// than the target, and tells whether the buffer now equals the target.
    pub fn push_and_check(&mut self, byte: u8) -> (r: bool)
        requires
            old(self).wf(),
            old(self).history().len() < u64::MAX,
        ensures
            final(self).wf(),
            final(self).target_view() == old(self).target_view(),
            final(self).history() == old(self).history().push(byte),
            r == (final(self).buffer_view() == final(self).target_view()),
            r == ends_with(final(self).history(), final(self).target_view()),
    {
        let ghost h = self.history@.push(byte);
        let ghost l = self.target@.len();
        self.buffer.push(byte);
        self.history = Ghost(h);
        if self.buffer.len() > self.target.len() {
            self.buffer.remove(0);
            self.offset = self.offset + 1;
            assert(self.buffer@ =~= window_of(h, l));
        } else {
            assert(self.buffer@ =~= window_of(h, l));
        }
        proof {
            lemma_window_equals_iff_ends_with(h, self.target@);
        }
        same_bytes(&self.buffer, &self.target)
    }

    /// The target searched for.
    pub fn target(&self) -> (r: &Vec<u8>)
        ensures
            r@ == self.target_view(),
    {
        &self.target
    }

    /// The bytes currently held.
    pub fn buffer(&self) -> (r: &Vec<u8>)
        ensures
            r@ == self.buffer_view(),
    {
        &self.buffer
    }

    /// The number of bytes evicted from the front so far.
    pub fn offset(&self) -> (r: u64)
        ensures
            r as nat == self.offset_view(),
    {
        self.offset
    }
}

} // verus!
