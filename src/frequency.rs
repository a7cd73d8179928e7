//! Byte-frequency histogram of a target payload.

use vstd::prelude::*;

verus! {

/// Number of occurrences of `b` in `s`.
pub open spec fn count_of(s: Seq<u8>, b: u8) -> nat
    decreases s.len(),
{
    if s.len() == 0 {
        0
    } else {
        count_of(s.drop_last(), b) + if s.last() == b { 1nat } else { 0nat }
    }
}

/// Sum of a sequence of counts.
pub open spec fn sum_of(s: Seq<usize>) -> nat
    decreases s.len(),
{
    if s.len() == 0 {
        0
    } else {
        sum_of(s.drop_last()) + s.last() as nat
    }
}

/// A byte never occurs more often than the sequence is long.
pub proof fn lemma_count_le_len(s: Seq<u8>, b: u8)
    ensures
        count_of(s, b) <= s.len(),
    decreases s.len(),
{
    if s.len() > 0 {
        lemma_count_le_len(s.drop_last(), b);
    }
}

/// Replacing one entry changes the sum by the difference.
proof fn lemma_sum_update(s: Seq<usize>, i: int, v: usize)
    requires
        0 <= i < s.len(),
    ensures
        sum_of(s.update(i, v)) + s[i] == sum_of(s) + v,
    decreases s.len(),
{
    let u = s.update(i, v);
    if i < s.len() - 1 {
        assert(u.drop_last() =~= s.drop_last().update(i, v));
        lemma_sum_update(s.drop_last(), i, v);
    } else {
        assert(u.drop_last() =~= s.drop_last());
    }
}

/// The occurrence counts of the bytes that occur in a target, by increasing
/// byte value.
///
/// `symbols[i]` occurs `weights[i]` times in the target; a byte that does not
/// occur has no entry, and the weights add up to the target's length.
pub struct FrequencyModel {
    symbols: Vec<u8>,
    weights: Vec<usize>,
    source: Ghost<Seq<u8>>,
}

impl FrequencyModel {
    /// The bytes that occur in the target, in increasing order.
    pub closed spec fn symbols_view(&self) -> Seq<u8> {
        self.symbols@
    }

    /// The count of each byte of `symbols_view`, at the same index.
    pub closed spec fn weights_view(&self) -> Seq<usize> {
        self.weights@
    }

    /// The target that the counts were taken from.
    pub closed spec fn source(&self) -> Seq<u8> {
        self.source@
    }

    /// The bytes that occur in the target, in increasing order.
    pub fn symbols(&self) -> (r: &Vec<u8>)
        ensures
            r@ == self.symbols_view(),
    {
        &self.symbols
    }

    /// How often `b` occurs in the target; 0 for a byte that does not occur.
    pub fn count(&self, b: u8) -> (r: usize)
        requires
            self.wf(),
        ensures
            r as nat == count_of(self.source(), b),
    {
        let mut i: usize = 0;
        while i < self.symbols.len()
            invariant
                self.wf(),
                i <= self.symbols@.len(),
                forall|j: int| 0 <= j < i ==> self.symbols@[j] != b,
            decreases self.symbols@.len() - i,
        {
            if self.symbols[i] == b {
                return self.weights[i];
            }
            i = i + 1;
        }
        proof {
            if count_of(self.source(), b) > 0 {
                assert(self.symbols_view().contains(b));
            }
        }
        0
    }

    /// The count of each byte of `symbols`, at the same index.
    pub fn weights(&self) -> (r: &Vec<usize>)
        ensures
            r@ == self.weights_view(),
    {
        &self.weights
    }

    /// The model describes its target exactly.
    pub open spec fn wf(&self) -> bool {
        let syms = self.symbols_view();
        let ws = self.weights_view();
        let t = self.source();
        &&& syms.len() == ws.len()
        &&& forall|i: int, j: int| 0 <= i < j < syms.len() ==> syms[i] < syms[j]
        &&& forall|i: int| 0 <= i < syms.len() ==> ws[i] as nat == #[trigger] count_of(t, syms[i])
        &&& forall|i: int| 0 <= i < ws.len() ==> #[trigger] ws[i] > 0
        &&& forall|b: u8| #[trigger] count_of(t, b) > 0 ==> syms.contains(b)
        &&& sum_of(ws) == t.len()
        &&& t.len() <= usize::MAX
    }
}

/// Counts how often each byte value occurs in `file_bytes`.
///
/// An empty payload gives an empty model.
pub fn calculate_byte_frequencies(file_bytes: &[u8]) -> (r: FrequencyModel)
    ensures
        r.wf(),
        r.source() == file_bytes@,
        r.symbols_view().len() == 0 <==> file_bytes@.len() == 0,
{
    let mut table: Vec<usize> = Vec::new();
    let mut k: usize = 0;
    while k < 256
        invariant
            k <= 256,
            table@.len() == k,
            forall|j: int| 0 <= j < k ==> table@[j] == 0,
        decreases 256 - k,
    {
        table.push(0);
        k = k + 1;
    }
    proof {
        assert forall|j: int| 0 <= j <= 256 implies sum_of(#[trigger] table@.subrange(0, j)) == 0 by {
            lemma_zero_prefix_sum(table@, j);
        }
        assert(table@.subrange(0, 256) =~= table@);
    }

    let n = file_bytes.len();
    let mut i: usize = 0;
    while i < n
        invariant
            n == file_bytes@.len(),
            i <= n,
            table@.len() == 256,
            forall|b: u8| table@[b as int] as nat == #[trigger] count_of(file_bytes@.subrange(0, i as int), b),
            sum_of(table@) == i,
        decreases n - i,
    {
        let byte = file_bytes[i];
        let ghost before = file_bytes@.subrange(0, i as int);
        let ghost after = file_bytes@.subrange(0, i + 1);
        proof {
            assert(after.drop_last() =~= before);
            lemma_count_le_len(before, byte);
        }
        let c = table[byte as usize];
        let ghost t0 = table@;
        table.set(byte as usize, c + 1);
        proof {
            lemma_sum_update(t0, byte as int, (c + 1) as usize);
            assert forall|b: u8| table@[b as int] as nat == #[trigger] count_of(after, b) by {
                assert(after.last() == byte);
                assert(t0[b as int] as nat == count_of(before, b));
            }
        }
        i = i + 1;
    }
    assert(file_bytes@.subrange(0, n as int) =~= file_bytes@);

    let mut symbols: Vec<u8> = Vec::new();
    let mut weights: Vec<usize> = Vec::new();
    let mut b: usize = 0;
    while b < 256
        invariant
            b <= 256,
            table@.len() == 256,
            forall|x: u8| table@[x as int] as nat == #[trigger] count_of(file_bytes@, x),
            sum_of(table@) == n,
            symbols@.len() == weights@.len(),
            forall|p: int, q: int| 0 <= p < q < symbols@.len() ==> symbols@[p] < symbols@[q],
            forall|p: int| 0 <= p < symbols@.len() ==> (symbols@[p] as int) < b,
            forall|p: int|
                0 <= p < symbols@.len() ==> weights@[p] as nat == #[trigger] count_of(
                    file_bytes@,
                    symbols@[p],
                ),
            forall|p: int| 0 <= p < weights@.len() ==> #[trigger] weights@[p] > 0,
            forall|x: u8| (x as int) < b && #[trigger] count_of(file_bytes@, x) > 0 ==> symbols@.contains(x),
            sum_of(weights@) == sum_of(table@.subrange(0, b as int)),
        decreases 256 - b,
    {
        let c = table[b];
        let ghost prev_w = weights@;
        let ghost prev_s = symbols@;
        proof {
            assert(table@.subrange(0, b + 1).drop_last() =~= table@.subrange(0, b as int));
        }
        if c > 0 {
            symbols.push(b as u8);
            weights.push(c);
            proof {
                assert(weights@.drop_last() =~= prev_w);
            }
        }
        proof {
            assert forall|x: u8| (x as int) < b + 1 && #[trigger] count_of(file_bytes@, x) > 0 implies symbols@.contains(x) by {
                if x as int == b as int {
                    assert(symbols@[symbols@.len() - 1] == x);
                } else {
                    assert(prev_s.contains(x));
                    let p = choose|p: int| 0 <= p < prev_s.len() && prev_s[p] == x;
                    assert(symbols@[p] == x);
                }
            }
        }
        b = b + 1;
    }
    assert(table@.subrange(0, 256) =~= table@);
    proof {
        if n > 0 {
            assert(count_of(file_bytes@, file_bytes@[0]) > 0) by {
                lemma_count_positive(file_bytes@, 0);
            }
        }
    }
    FrequencyModel { symbols, weights, source: Ghost(file_bytes@) }
}

/// A prefix of a table of zeros sums to zero.
proof fn lemma_zero_prefix_sum(s: Seq<usize>, j: int)
    requires
        0 <= j <= s.len(),
        forall|p: int| 0 <= p < s.len() ==> s[p] == 0,
    ensures
        sum_of(s.subrange(0, j)) == 0,
    decreases j,
{
    if j > 0 {
        assert(s.subrange(0, j).drop_last() =~= s.subrange(0, j - 1));
        lemma_zero_prefix_sum(s, j - 1);
    }
}

/// A byte at some position of `s` occurs in `s`.
pub proof fn lemma_count_positive(s: Seq<u8>, i: int)
    requires
        0 <= i < s.len(),
    ensures
        count_of(s, s[i]) > 0,
    decreases s.len(),
{
    if i < s.len() - 1 {
        lemma_count_positive(s.drop_last(), i);
    }
}

} // verus!
