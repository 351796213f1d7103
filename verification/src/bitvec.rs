use std::collections::VecDeque;
use vstd::prelude::*;
use vstd::std_specs::cmp::PartialEqSpec;

verus! {

/// Bit `k` of `word`, counted from the least significant one.
pub open spec fn word_bit(word: u32, k: u32) -> bool {
    word & (1u32 << k) != 0
}

proof fn lemma_set_bit(word: u32, k: u32, j: u32)
    requires
        k < 32,
        j < 32,
    ensures
        word_bit(word | (1u32 << k), j) == (j == k || word_bit(word, j)),
{
    assert((word | (1u32 << k)) & (1u32 << j) != 0 <==> (j == k || word & (1u32 << j) != 0))
        by (bit_vector)
        requires
            k < 32,
            j < 32,
    ;
}

proof fn lemma_small_word(j: u32)
    requires
        j < 32,
    ensures
        !word_bit(0, j),
        word_bit(1, j) == (j == 0),
{
    assert(0u32 & (1u32 << j) == 0) by (bit_vector);
    assert(1u32 & (1u32 << j) != 0 <==> j == 0) by (bit_vector)
        requires
            j < 32,
    ;
}

/// Two words that agree on every bit are the same word.
proof fn lemma_words_with_equal_bits(a: u32, b: u32)
    requires
        forall|j: u32| j < 32 ==> word_bit(a, j) == word_bit(b, j),
    ensures
        a == b,
{
    if a != b {
        assert(a >> 32u32 == b >> 32u32) by (bit_vector);
        let j = lemma_differing_bit(a, b, 32);
        assert(word_bit(a, j) == word_bit(b, j));
    }
}

proof fn lemma_differing_bit(a: u32, b: u32, n: u32) -> (j: u32)
    requires
        a != b,
        n <= 32,
        a >> n == b >> n,
    ensures
        j < 32,
        word_bit(a, j) != word_bit(b, j),
    decreases n,
{
    assert(n != 0) by (bit_vector)
        requires
            a != b,
            n <= 32,
            a >> n == b >> n,
    ;
    let k = (n - 1) as u32;
    if word_bit(a, k) != word_bit(b, k) {
        k
    } else {
        assert(a >> k == b >> k) by (bit_vector)
            requires
                n <= 32,
                n != 0,
                k == n - 1,
                a >> n == b >> n,
                (a & (1u32 << k) != 0) == (b & (1u32 << k) != 0),
        ;
        lemma_differing_bit(a, b, k)
    }
}

/// The bits that `words` hold where `last_bits` bits of the last word are in use. A count of more
/// than a word's bits stands for no bits beyond those of the word.
pub open spec fn unpacked(words: Seq<u32>, last_bits: u8) -> Seq<bool> {
    let in_last: int = if last_bits < 32 {
        last_bits as int
    } else {
        32
    };
    Seq::new(
        if words.len() == 0 {
            0
        } else {
            (32 * (words.len() - 1) + in_last) as nat
        },
        |i: int| word_bit(words[i / 32], (i % 32) as u32),
    )
}

/// A growable sequence of bits, packed into words from the least significant bit up.
#[derive(Debug)]
pub struct BitVec {
    // Storage space for bits.
    storage: Vec<u32>,
    // Bits in use in the last element of storage.
    len_of_last: u8,
}

impl View for BitVec {
    type V = Seq<bool>;

    /// The bits, in order.
    closed spec fn view(&self) -> Seq<bool> {
        unpacked(self.storage@, self.len_of_last)
    }
}

impl BitVec {
    /// Every word has a bit in use, bits that are not in use are zero, and the number of bits
    /// fits a `usize`.
    #[verifier::type_invariant]
    spec fn inv(self) -> bool {
        &&& self.len_of_last <= 32
        &&& self.storage@.len() == 0 <==> self.len_of_last == 0
        &&& 32 * (self.storage@.len() - 1) + self.len_of_last <= usize::MAX
        &&& rest_is_zero(self.storage@, self.len_of_last)
    }

    /// Both values have the same fields.
    spec fn same_fields(&self, other: &Self) -> bool {
        self.storage@ == other.storage@ && self.len_of_last == other.len_of_last
    }

    /// The empty vector.
    pub fn new() -> (r: Self)
        ensures
            r@ == Seq::<bool>::empty(),
    {
        let r = BitVec { storage: Vec::new(), len_of_last: 0u8 };
        assert(r@ =~= Seq::empty());
        r
    }

    /// The vector that holds the bits of `slice`.
    pub fn from_slice(slice: &[bool]) -> (r: Self)
        ensures
            r@ == slice@,
    {
        let mut bit_vec = BitVec::new();
        for i in 0..slice.len()
            invariant
                bit_vec@ == slice@.take(i as int),
                i <= slice@.len() <= usize::MAX,
        {
            bit_vec.push(slice[i]);
            assert(slice@.take(i + 1) =~= slice@.take(i as int).push(slice@[i as int]));
        }
        assert(slice@.take(slice@.len() as int) =~= slice@);
        bit_vec
    }

    /// The number of bits.
    pub fn len(&self) -> (r: usize)
        ensures
            r == self@.len(),
    {
        proof {
            use_type_invariant(self);
        }
        if self.storage.len() == 0 {
            return 0;
        }
        32usize * (self.storage.len() - 1) + (self.len_of_last as usize)
    }

    pub fn is_empty(&self) -> (r: bool)
        ensures
            r == (self@.len() == 0),
    {
        proof {
            use_type_invariant(self);
        }
        self.len_of_last == 0
    }

    /// Adds `bit` at the end.
    pub fn push(&mut self, bit: bool)
        requires
            old(self)@.len() < usize::MAX,
        ensures
            final(self)@ == old(self)@.push(bit),
    {
        proof {
            use_type_invariant(&*self);
        }
        let ghost before = *self;
        let mut taken = BitVec { storage: Vec::new(), len_of_last: 0u8 };
        std::mem::swap(self, &mut taken);
        let BitVec { mut storage, mut len_of_last } = taken;
        let ghost k = len_of_last as u32;
        if storage.len() == 0 || len_of_last == 32 {
            // There is no room in the last word: the bit becomes the first one of a new word.
            let word: u32 = if bit {
                1
            } else {
                0
            };
            storage.push(word);
            len_of_last = 1;
            proof {
                assert forall|j: u32| j < 32 implies #[trigger] word_bit(word, j) == (j == 0
                    && bit) by {
                    lemma_small_word(j);
                }
            }
        } else if bit {
            // Explicitly set a one-bit in the next available position.
            let last = storage.len() - 1;
            let new_bit = 1u32 << (len_of_last as u32);
            let word = storage[last] | new_bit;
            storage.set(last, word);
            len_of_last = len_of_last + 1;
            proof {
                assert forall|j: u32| j < 32 implies #[trigger] word_bit(word, j) == (j == k
                    || word_bit(before.storage@.last(), j)) by {
                    lemma_set_bit(before.storage@.last(), k, j);
                }
            }
        } else {
            // No need to explicitly set a bit. Just add a zero by incrementing the length.
            len_of_last = len_of_last + 1;
        }
        *self = BitVec { storage, len_of_last };
        proof {
            let n = before@.len() as int;
            assert(self@.len() == n + 1);
            assert forall|i: int| 0 <= i < n + 1 implies self@[i] == before@.push(bit)[i] by {
                let j = (i % 32) as u32;
                let w = i / 32;
                assert(self@[i] == word_bit(self.storage@[w], j));
                if i < n {
                    assert(before@[i] == word_bit(before.storage@[w], j));
                    if w == before.storage@.len() - 1 {
                        assert(i == 32 * w + j);
                        assert(j < before.len_of_last);
                        assert(before.storage@.last() == before.storage@[w]);
                        assert(word_bit(self.storage@[w], j) == word_bit(before.storage@[w], j));
                    }
                } else if before.storage@.len() == 0 || before.len_of_last == 32 {
                    assert(w == self.storage@.len() - 1);
                    assert(j == 0);
                } else {
                    assert(w == before.storage@.len() - 1);
                    assert(j == before.len_of_last);
                    assert(!word_bit(before.storage@.last(), j));
                }
            }
            assert(self@ =~= before@.push(bit));
        }
    }

    /// Adds the bits of `other` at the end.
    pub fn append(&mut self, other: &BitVec)
        requires
            old(self)@.len() + other@.len() <= usize::MAX,
        ensures
            final(self)@ == old(self)@ + other@,
    {
        let ghost before = self@;
        let mut bits = other.into_iter();
        assert(before + other@ =~= self@ + bits.rest());
        loop
            invariant
                before.len() + other@.len() <= usize::MAX,
                before + other@ == self@ + bits.rest(),
            ensures
                self@ == before + other@,
            decreases bits.rest().len(),
        {
            let ghost done = self@;
            let ghost rest = bits.rest();
            match bits.next() {
                Some(bit) => {
                    assert((done + rest).len() == (before + other@).len());
                    self.push(bit);
                    assert(self@ + bits.rest() =~= done + rest);
                },
                None => {
                    assert(done + rest =~= done);
                    break;
                },
            }
        }
    }

    /// The bits at the indices of `range`, or `None` where one of them is past the end.
    pub fn range(&self, range: std::ops::Range<usize>) -> (r: Option<Self>)
        ensures
            r is Some <==> (range.start >= range.end || range.end <= self@.len()),
            r matches Some(bits) ==> bits@ == (if range.start < range.end {
                self@.subrange(range.start as int, range.end as int)
            } else {
                Seq::empty()
            }),
    {
        let mut bitvec = BitVec::new();
        let mut idx: usize = range.start;
        while idx < range.end
            invariant
                range.start <= idx,
                range.start < range.end ==> idx <= range.end,
                range.start >= range.end ==> idx == range.start,
                range.start < idx ==> idx <= self@.len(),
                bitvec@ == (if range.start < idx {
                    self@.subrange(range.start as int, idx as int)
                } else {
                    Seq::empty()
                }),
            decreases range.end - idx,
        {
            match self.get(idx) {
                Some(bit) => {
                    let ghost so_far = bitvec@;
                    bitvec.push(bit);
                    assert(self@.subrange(range.start as int, idx + 1) =~= so_far.push(bit));
                },
                None => {
                    return None;
                },
            }
            idx = idx + 1;
        }
        Some(bitvec)
    }

    /// The bit at `index`, or `None` where there is none.
    pub fn get(&self, index: usize) -> (r: Option<bool>)
        ensures
            r == (if index < self@.len() {
                Some(self@[index as int])
            } else {
                None
            }),
    {
        proof {
            use_type_invariant(self);
        }
        if index >= self.len() {
            return None;
        }
        let outer_idx = index / 32;
        let element = self.storage[outer_idx];
        let inner_idx = (index % 32) as u32;
        let bit = 1u32 << inner_idx;
        Some((element & bit) != 0)
    }
}

impl Clone for BitVec {
    fn clone(&self) -> (r: Self)
        ensures
            r@ == self@,
    {
        proof {
            use_type_invariant(self);
        }
        let storage = self.storage.clone();
        assert(storage@ =~= self.storage@);
        BitVec { storage, len_of_last: self.len_of_last }
    }
}

/// Whether two vectors hold the same words.
fn same_words(a: &Vec<u32>, b: &Vec<u32>) -> (r: bool)
    ensures
        r == (a@ == b@),
{
    if a.len() != b.len() {
        return false;
    }
    for i in 0..a.len()
        invariant
            a@.len() == b@.len(),
            forall|j: int| 0 <= j < i ==> a@[j] == b@[j],
    {
        if a[i] != b[i] {
            return false;
        }
    }
    assert(a@ =~= b@);
    true
}

impl PartialEq for BitVec {
    fn eq(&self, other: &Self) -> (r: bool) {
        proof {
            use_type_invariant(self);
            use_type_invariant(other);
            lemma_same_fields_iff_same_bits(*self, *other);
        }
        self.len_of_last == other.len_of_last && same_words(&self.storage, &other.storage)
    }
}

impl vstd::std_specs::cmp::PartialEqSpecImpl for BitVec {
    open spec fn obeys_eq_spec() -> bool {
        true
    }

    /// Vectors are equal exactly when they hold the same bits.
    open spec fn eq_spec(&self, other: &Self) -> bool {
        self@ == other@
    }
}

proof fn lemma_same_fields_iff_same_bits(a: BitVec, b: BitVec)
    requires
        a.inv(),
        b.inv(),
    ensures
        a.same_fields(&b) <==> a@ == b@,
{
    if a@ == b@ {
        assert(a@.len() == b@.len());
        assert(a.storage@.len() == b.storage@.len());
        assert(a.len_of_last == b.len_of_last);
        lemma_same_bits_same_words(a.storage@, b.storage@, a.len_of_last);
    }
}

/// The bits of `words` that are not in use are zero.
pub open spec fn rest_is_zero(words: Seq<u32>, last_bits: u8) -> bool {
    forall|k: u32| last_bits <= k < 32 && words.len() > 0 ==> !#[trigger] word_bit(words.last(), k)
}

proof fn lemma_same_bits_same_words(a: Seq<u32>, b: Seq<u32>, last_bits: u8)
    requires
        last_bits <= 32,
        a.len() == b.len(),
        rest_is_zero(a, last_bits),
        rest_is_zero(b, last_bits),
        unpacked(a, last_bits) == unpacked(b, last_bits),
    ensures
        a == b,
{
    let bits = unpacked(a, last_bits);
    assert forall|w: int| 0 <= w < a.len() implies a[w] == b[w] by {
        assert forall|j: u32| j < 32 implies word_bit(a[w], j) == word_bit(b[w], j) by {
            let i = 32 * w + j;
            assert(i / 32 == w && i % 32 == j);
            if i < bits.len() {
                assert(unpacked(a, last_bits)[i] == word_bit(a[w], j));
                assert(unpacked(b, last_bits)[i] == word_bit(b[w], j));
            } else {
                assert(!word_bit(a.last(), j));
                assert(!word_bit(b.last(), j));
            }
        }
        lemma_words_with_equal_bits(a[w], b[w]);
    }
    assert(a =~= b);
}

/// Walks over the bits of a `BitVec` in order.
pub struct BitVecIter<'a> {
    // Object being iterated over.
    bitvec: &'a BitVec,
    // Current bit pointed to by the iterator.
    bit_counter: usize,
}

impl<'a> BitVecIter<'a> {
    #[verifier::type_invariant]
    spec fn inv(self) -> bool {
        self.bit_counter <= self.bitvec@.len()
    }

    /// The bits that are still to come.
    pub closed spec fn rest(&self) -> Seq<bool> {
        self.bitvec@.skip(self.bit_counter as int)
    }
}

impl<'a> Iterator for BitVecIter<'a> {
    type Item = bool;

    fn next(&mut self) -> (r: Option<bool>) {
        proof {
            use_type_invariant(&*self);
            use_type_invariant(self.bitvec);
        }
        match self.bitvec.get(self.bit_counter) {
            Some(b) => {
                self.bit_counter = self.bit_counter + 1;
                Some(b)
            },
            None => None,
        }
    }
}

impl<'a> vstd::std_specs::iter::IteratorSpecImpl for BitVecIter<'a> {
    open spec fn obeys_prophetic_iter_laws(&self) -> bool {
        true
    }

    open spec fn remaining(&self) -> Seq<bool> {
        self.rest()
    }

    open spec fn will_return_none(&self) -> bool {
        true
    }

    open spec fn decrease(&self) -> Option<nat> {
        Some(self.rest().len())
    }

    open spec fn initial_value_relation(&self, init: &Self) -> bool {
        self.rest() == init.rest()
    }

    open spec fn peek(&self, index: int) -> Option<bool> {
        if 0 <= index < self.rest().len() {
            Some(self.rest()[index])
        } else {
            None
        }
    }
}

impl<'a> IntoIterator for &'a BitVec {
    type Item = bool;

    type IntoIter = BitVecIter<'a>;

    fn into_iter(self) -> (r: BitVecIter<'a>)
        ensures
            r.rest() == self@,
    {
        let r = BitVecIter { bitvec: self, bit_counter: 0 };
        assert(self@.skip(0) =~= self@);
        r
    }
}

/// The bits of each vector of `seq`.
pub open spec fn bits_of(seq: Seq<BitVec>) -> Seq<Seq<bool>> {
    seq.map_values(|element: BitVec| element@)
}

/// Every element has `element_size` bits.
pub open spec fn equally_sized(element_size: nat, elements: Seq<Seq<bool>>) -> bool {
    forall|i: int| 0 <= i < elements.len() ==> (#[trigger] elements[i]).len() == element_size
}

/// What element `i` contributes to the compressed form: a zero bit where it repeats the element
/// before it, a one bit and its own bits where it does not.
pub open spec fn chunk(elements: Seq<Seq<bool>>, i: int) -> Seq<bool> {
    if i > 0 && elements[i] == elements[i - 1] {
        seq![false]
    } else {
        seq![true] + elements[i]
    }
}

/// The chunks of the elements from index `i` on.
pub open spec fn compressed_from(elements: Seq<Seq<bool>>, i: int) -> Seq<bool>
    decreases elements.len() - i,
{
    if 0 <= i < elements.len() {
        chunk(elements, i) + compressed_from(elements, i + 1)
    } else {
        Seq::empty()
    }
}

/// The compressed form of `elements`: the chunk of each, in order.
pub open spec fn compressed(elements: Seq<Seq<bool>>) -> Seq<bool> {
    compressed_from(elements, 0)
}

/// `head` in front of what `tail` holds.
pub open spec fn prepend(head: Seq<Seq<bool>>, tail: Option<Seq<Seq<bool>>>) -> Option<
    Seq<Seq<bool>>,
> {
    match tail {
        Some(elements) => Some(head + elements),
        None => None,
    }
}

/// The elements that `bits` stands for, where `previous` is the element read last. A one bit
/// starts a new element of `element_size` bits, a zero bit repeats the previous one. There is
/// no answer where an element is cut short, nor where there is nothing to repeat.
pub open spec fn decompressed(
    element_size: nat,
    bits: Seq<bool>,
    previous: Option<Seq<bool>>,
) -> Option<Seq<Seq<bool>>>
    decreases bits.len(),
{
    if bits.len() == 0 {
        Some(Seq::empty())
    } else if bits[0] {
        if bits.len() < element_size + 1 {
            None
        } else {
            let element = bits.subrange(1, 1 + element_size as int);
            prepend(
                seq![element],
                decompressed(element_size, bits.skip(1 + element_size as int), Some(element)),
            )
        }
    } else {
        match previous {
            Some(element) => prepend(
                seq![element],
                decompressed(element_size, bits.skip(1), previous),
            ),
            None => None,
        }
    }
}

proof fn lemma_prepend_twice(
    head: Seq<Seq<bool>>,
    element: Seq<bool>,
    tail: Option<Seq<Seq<bool>>>,
)
    ensures
        prepend(head, prepend(seq![element], tail)) == prepend(head.push(element), tail),
{
    if let Some(elements) = tail {
        assert(head + (seq![element] + elements) =~= head.push(element) + elements);
    }
}

fn decompress(element_size: usize, payload: &BitVec) -> (r: Option<VecDeque<BitVec>>)
    ensures
        decompressed(element_size as nat, payload@, None) == (match r {
            Some(seq) => Some(bits_of(seq@)),
            None => None,
        }),
{
    let mut seq = VecDeque::<BitVec>::new();
    let mut idx: usize = 0;
    let mut previous: Option<BitVec> = None;
    let ghost total = decompressed(element_size as nat, payload@, None);
    proof {
        assert(payload@.skip(0) =~= payload@);
        assert(bits_of(seq@) =~= Seq::<Seq<bool>>::empty());
        if let Some(elements) = total {
            assert(Seq::<Seq<bool>>::empty() + elements =~= elements);
        }
    }
    let payload_len = payload.len();
    while idx < payload_len
        invariant
            payload_len == payload@.len(),
            idx <= payload_len,
            total == decompressed(element_size as nat, payload@, None),
            total == prepend(
                bits_of(seq@),
                decompressed(
                    element_size as nat,
                    payload@.skip(idx as int),
                    match previous {
                        Some(element) => Some(element@),
                        None => None,
                    },
                ),
            ),
        decreases payload_len - idx,
    {
        let ghost rest = payload@.skip(idx as int);
        let ghost done = seq@;
        let bit = match payload.get(idx) {
            Some(bit) => bit,
            None => {
                return None;
            },
        };
        if bit {
            if payload_len - idx - 1 < element_size {
                return None;
            }
            let range = std::ops::Range::<usize> { start: idx + 1, end: idx + element_size + 1 };
            let element = match payload.range(range) {
                Some(element) => element,
                None => {
                    return None;
                },
            };
            seq.push_back(element.clone());
            proof {
                assert(rest.subrange(1, element_size + 1) =~= element@);
                assert(rest.skip(element_size + 1) =~= payload@.skip(idx + element_size + 1));
                assert(bits_of(seq@) =~= bits_of(done).push(element@));
                lemma_prepend_twice(
                    bits_of(done),
                    element@,
                    decompressed(
                        element_size as nat,
                        rest.skip(element_size + 1),
                        Some(element@),
                    ),
                );
            }
            previous = Some(element);
            idx = idx + (element_size + 1);
        } else {
            match &previous {
                Some(element) => {
                    seq.push_back(element.clone());
                    proof {
                        assert(rest.skip(1) =~= payload@.skip(idx + 1));
                        assert(bits_of(seq@) =~= bits_of(done).push(element@));
                        lemma_prepend_twice(
                            bits_of(done),
                            element@,
                            decompressed(element_size as nat, rest.skip(1), Some(element@)),
                        );
                    }
                },
                None => {
                    return None;
                },
            }
            idx = idx + 1;
        }
    }
    proof {
        assert(bits_of(seq@) + Seq::<Seq<bool>>::empty() =~= bits_of(seq@));
    }
    Some(seq)
}

fn compress(element_size: usize, seq: &VecDeque<BitVec>) -> (r: Option<BitVec>)
    requires
        compressed(bits_of(seq@)).len() <= usize::MAX,
    ensures
        r is Some <==> equally_sized(element_size as nat, bits_of(seq@)),
        r matches Some(payload) ==> payload@ == compressed(bits_of(seq@)),
{
    let ghost elements = bits_of(seq@);
    // For each contiguous, equal element, add a zero-bit. For each contiguous element that
    // isn't equal to the previous, add a one-bit followed by the new value.
    let mut previous: Option<&BitVec> = None;
    let mut payload = BitVec::new();
    assert(payload@ + compressed_from(elements, 0) =~= compressed(elements));
    for i in 0..seq.len()
        invariant
            elements == bits_of(seq@),
            compressed(elements).len() <= usize::MAX,
            payload@ + compressed_from(elements, i as int) == compressed(elements),
            i == 0 <==> previous is None,
            previous matches Some(element) ==> element@ == elements[i - 1],
            forall|j: int| 0 <= j < i ==> (#[trigger] elements[j]).len() == element_size,
    {
        let ghost done = payload@;
        let ghost rest = compressed_from(elements, i + 1);
        let element = &seq[i];
        assert(element@ == elements[i as int]);
        if element.len() != element_size {
            // Only equal-length BitVecs are supported.
            return None;
        }
        let repeated = match previous {
            Some(before) => *element == *before,
            None => false,
        };
        assert((done + compressed_from(elements, i as int)).len() == compressed(elements).len());
        if repeated {
            // Compress repetitive elements as a single zero-bit.
            payload.push(false);
            assert(payload@ + rest =~= done + (seq![false] + rest));
        } else {
            // Store non-repetitive elements directly.
            payload.push(true);
            payload.append(element);
            assert(payload@ + rest =~= done + (seq![true] + element@ + rest));
        }
        previous = Some(element);
    }
    assert(payload@ + Seq::<bool>::empty() =~= payload@);
    Some(payload)
}

/// The number of bits of the compressed form of `seq`, or `None` where a `usize` does not count
/// them.
pub fn compressed_len(seq: &VecDeque<BitVec>) -> (r: Option<usize>)
    ensures
        r == (if compressed(bits_of(seq@)).len() <= usize::MAX {
            Some(compressed(bits_of(seq@)).len() as usize)
        } else {
            None
        }),
{
    let ghost elements = bits_of(seq@);
    let mut total: usize = 0;
    for i in 0..seq.len()
        invariant
            elements == bits_of(seq@),
            total + compressed_from(elements, i as int).len() == compressed(elements).len(),
    {
        let element = &seq[i];
        assert(element@ == elements[i as int]);
        let repeated = i > 0 && *element == seq[i - 1];
        assert(i > 0 ==> seq@[i - 1]@ == elements[i - 1]);
        let element_len: usize = if repeated {
            0
        } else {
            element.len()
        };
        if total == usize::MAX || element_len > usize::MAX - total - 1 {
            return None;
        }
        total = total + 1 + element_len;
    }
    Some(total)
}

/// The words of a payload are packed as compressing packs them: there is at least one word, every
/// further one has a bit in use, and bits that are not in use are zero.
pub open spec fn is_packed(words: Seq<u32>, last_bits: u8) -> bool {
    &&& words.len() >= 1
    &&& last_bits <= 32
    &&& last_bits == 0 ==> words.len() == 1
    &&& rest_is_zero(words, last_bits)
}

/// Represents a compressed `VecDeque<BitVec>` where each `BitVec` has the same length.
/// This data structure is used to implement the networking strategy described by
/// https://gafferongames.com/post/deterministic_lockstep/
///
/// A value that came over the network keeps its words as they came, whatever they hold.
#[derive(Debug)]
pub struct CompressedBitVec {
    // Words of the compressed vector of BitVecs.
    storage: Vec<u32>,
    // Bits in use in the last element of storage.
    len_of_last: u8,
    // Number of bits in each of the original BitVecs before they were compressed.
    element_size: usize,
}

impl CompressedBitVec {
    /// There is a word, and the number of bits fits a `usize`.
    #[verifier::type_invariant]
    spec fn inv(self) -> bool {
        &&& self.storage@.len() >= 1
        &&& 32 * (self.storage@.len() - 1) + self.len_of_last <= usize::MAX
    }

    /// The words of the payload.
    pub closed spec fn words(&self) -> Seq<u32> {
        self.storage@
    }

    /// The number of bits that are said to be in use in the last word.
    pub closed spec fn last_bits(&self) -> u8 {
        self.len_of_last
    }

    /// The number of bits of each element.
    pub closed spec fn element_bits(&self) -> nat {
        self.element_size as nat
    }

    /// The bits of the payload.
    pub open spec fn payload(&self) -> Seq<bool> {
        unpacked(self.words(), self.last_bits())
    }

    /// The elements that this value stands for, if it stands for any. It stands for none where more
    /// bits are said to be in use than the last word has.
    pub open spec fn decoded(&self) -> Option<Seq<Seq<bool>>> {
        if self.last_bits() <= 32 {
            decompressed(self.element_bits(), self.payload(), None)
        } else {
            None
        }
    }

    /// Both values have the same fields.
    pub open spec fn same(&self, other: &Self) -> bool {
        &&& self.words() == other.words()
        &&& self.last_bits() == other.last_bits()
        &&& self.element_bits() == other.element_bits()
    }

    /// Creates a compressed representation of a series of equally sized `BitVec`s.
    /// If `seq` are not equally sized, returns `None`.
    pub fn compress(seq: &VecDeque<BitVec>) -> (r: Option<Self>)
        requires
            compressed(bits_of(seq@)).len() <= usize::MAX,
        ensures
            r is Some <==> all_same_size(bits_of(seq@)),
            r matches Some(comp) ==> {
                &&& comp.payload() == compressed(bits_of(seq@))
                &&& is_packed(comp.words(), comp.last_bits())
                &&& comp.element_bits() == size_of_first(bits_of(seq@))
                &&& comp.decoded() == Some(bits_of(seq@))
            },
    {
        let element_size: usize = if seq.len() > 0 {
            seq[0].len()
        } else {
            0
        };
        match compress(element_size, seq) {
            Some(bits) => {
                proof {
                    use_type_invariant(&bits);
                    lemma_decompress_undoes_compress(element_size as nat, bits_of(seq@));
                }
                let ghost payload = bits@;
                let BitVec { mut storage, len_of_last } = bits;
                if storage.len() == 0 {
                    storage.push(0);
                    assert forall|k: u32| k < 32 implies !word_bit(0, k) by {
                        lemma_small_word(k);
                    }
                }
                assert(unpacked(storage@, len_of_last) =~= payload);
                Some(CompressedBitVec { storage, len_of_last, element_size })
            },
            None => None,
        }
    }

    /// Decompresses `self` into a `VecDeque` of equally sized `BitVec`s.
    pub fn decompress(&self) -> (r: Option<VecDeque<BitVec>>)
        ensures
            self.decoded() == (match r {
                Some(seq) => Some(bits_of(seq@)),
                None => None,
            }),
            r matches Some(seq) ==> equally_sized(self.element_bits(), bits_of(seq@)),
    {
        if self.len_of_last > 32 {
            // There are not as many bits as the payload claims.
            return None;
        }
        proof {
            lemma_decompressed_sizes(self.element_bits(), self.payload(), None);
        }
        decompress(self.element_size, &self.payload_bits())
    }

    fn payload_bits(&self) -> (r: BitVec)
        requires
            self.last_bits() <= 32,
        ensures
            r@ == self.payload(),
    {
        proof {
            use_type_invariant(self);
        }
        let len = 32usize * (self.storage.len() - 1) + (self.len_of_last as usize);
        let ghost all = self.payload();
        let mut bits = BitVec::new();
        let mut i: usize = 0;
        assert(all.take(0) =~= Seq::empty());
        while i < len
            invariant
                i <= len,
                len == all.len(),
                len == 32 * (self.storage@.len() - 1) + self.len_of_last,
                self.len_of_last <= 32,
                all == self.payload(),
                bits@ == all.take(i as int),
            decreases len - i,
        {
            let element = self.storage[i / 32];
            let bit = 1u32 << ((i % 32) as u32);
            bits.push((element & bit) != 0);
            assert(all.take(i + 1) =~= all.take(i as int).push(all[i as int]));
            i = i + 1;
        }
        assert(all.take(i as int) =~= all);
        bits
    }

    /// The value that the fields of a received message describe: the words of the payload, the
    /// number of bits in use in the last of them, and the number of bits of each element. There
    /// is none without a word, nor with more bits than a `usize` counts.
    pub fn from_parts(storage: Vec<u32>, len_of_last: u8, element_size: usize) -> (r: Option<Self>)
        ensures
            r is Some <==> storage@.len() >= 1 && 32 * (storage@.len() - 1) + len_of_last
                <= usize::MAX,
            r matches Some(comp) ==> {
                &&& comp.words() == storage@
                &&& comp.last_bits() == len_of_last
                &&& comp.element_bits() == element_size
            },
    {
        if storage.len() == 0 || storage.len() - 1 > (usize::MAX - len_of_last as usize) / 32 {
            return None;
        }
        Some(CompressedBitVec { storage, len_of_last, element_size })
    }

    /// The fields of the message that describes `self`, as `from_parts` takes them.
    pub fn to_parts(&self) -> (r: (Vec<u32>, u8, usize))
        ensures
            r.0@.len() >= 1,
            32 * (r.0@.len() - 1) + r.1 <= usize::MAX,
            r.0@ == self.words(),
            r.1 == self.last_bits(),
            r.2 == self.element_bits(),
    {
        proof {
            use_type_invariant(self);
        }
        let storage = self.storage.clone();
        assert(storage@ =~= self.storage@);
        (storage, self.len_of_last, self.element_size)
    }
}

/// The number of bits of the first element, or zero where there is none.
pub open spec fn size_of_first(elements: Seq<Seq<bool>>) -> nat {
    if elements.len() > 0 {
        elements[0].len()
    } else {
        0
    }
}

/// All elements have the same number of bits.
pub open spec fn all_same_size(elements: Seq<Seq<bool>>) -> bool {
    equally_sized(size_of_first(elements), elements)
}

impl Clone for CompressedBitVec {
    fn clone(&self) -> (r: Self)
        ensures
            r.same(self),
    {
        proof {
            use_type_invariant(self);
        }
        let storage = self.storage.clone();
        assert(storage@ =~= self.storage@);
        CompressedBitVec {
            storage,
            len_of_last: self.len_of_last,
            element_size: self.element_size,
        }
    }
}

impl PartialEq for CompressedBitVec {
    fn eq(&self, other: &Self) -> (r: bool) {
        same_words(&self.storage, &other.storage) && self.len_of_last == other.len_of_last
            && self.element_size == other.element_size
    }
}

impl vstd::std_specs::cmp::PartialEqSpecImpl for CompressedBitVec {
    open spec fn obeys_eq_spec() -> bool {
        true
    }

    open spec fn eq_spec(&self, other: &Self) -> bool {
        self.same(other)
    }
}

/// A value survives the network: what is put together from its fields is the same value, and
/// stands for the same elements.
pub proof fn lemma_parts_describe_one_value(sent: CompressedBitVec, received: CompressedBitVec)
    requires
        received.words() == sent.words(),
        received.last_bits() == sent.last_bits(),
        received.element_bits() == sent.element_bits(),
    ensures
        received.same(&sent),
        received.decoded() == sent.decoded(),
{
}

/// Compressing the same elements gives the same value: of two packed values with the same payload
/// every word is the same.
pub proof fn lemma_packed_payload_is_one_value(a: CompressedBitVec, b: CompressedBitVec)
    requires
        is_packed(a.words(), a.last_bits()),
        is_packed(b.words(), b.last_bits()),
        a.payload() == b.payload(),
        a.element_bits() == b.element_bits(),
    ensures
        a.same(&b),
{
    assert(a.payload().len() == 32 * (a.words().len() - 1) + a.last_bits());
    assert(b.payload().len() == 32 * (b.words().len() - 1) + b.last_bits());
    lemma_same_bits_same_words(a.words(), b.words(), a.last_bits());
}

/// The bits of two vectors put one after the other: first those of the one, unchanged, then those
/// of the other, in order.
pub proof fn lemma_appended_bits(x: Seq<bool>, y: Seq<bool>)
    ensures
        (x + y).len() == x.len() + y.len(),
        (x + y).take(x.len() as int) == x,
        (x + y).skip(x.len() as int) == y,
{
    assert((x + y).take(x.len() as int) =~= x);
    assert((x + y).skip(x.len() as int) =~= y);
}

/// Decompressing what compressing gave returns the elements, in order.
pub proof fn lemma_decompress_undoes_compress(element_size: nat, elements: Seq<Seq<bool>>)
    requires
        equally_sized(element_size, elements),
    ensures
        decompressed(element_size, compressed(elements), None) == Some(elements),
{
    lemma_decompress_from(element_size, elements, 0);
    assert(elements.skip(0) =~= elements);
}

proof fn lemma_decompress_from(element_size: nat, elements: Seq<Seq<bool>>, i: int)
    requires
        equally_sized(element_size, elements),
        0 <= i <= elements.len(),
    ensures
        decompressed(
            element_size,
            compressed_from(elements, i),
            if i > 0 {
                Some(elements[i - 1])
            } else {
                None
            },
        ) == Some(elements.skip(i)),
    decreases elements.len() - i,
{
    if i < elements.len() {
        lemma_decompress_from(element_size, elements, i + 1);
        let bits = compressed_from(elements, i);
        let rest = compressed_from(elements, i + 1);
        let element = elements[i];
        assert(elements.skip(i) =~= seq![element] + elements.skip(i + 1));
        if i > 0 && element == elements[i - 1] {
            assert(bits.skip(1) =~= rest);
        } else {
            assert(bits.subrange(1, 1 + element_size as int) =~= element);
            assert(bits.skip(1 + element_size as int) =~= rest);
        }
    } else {
        assert(elements.skip(i) =~= Seq::empty());
    }
}

proof fn lemma_decompressed_sizes(
    element_size: nat,
    bits: Seq<bool>,
    previous: Option<Seq<bool>>,
)
    requires
        previous matches Some(element) ==> element.len() == element_size,
    ensures
        decompressed(element_size, bits, previous) matches Some(elements) ==> equally_sized(
            element_size,
            elements,
        ),
    decreases bits.len(),
{
    if bits.len() > 0 {
        if bits[0] && bits.len() >= element_size + 1 {
            lemma_decompressed_sizes(
                element_size,
                bits.skip(1 + element_size as int),
                Some(bits.subrange(1, 1 + element_size as int)),
            );
        } else if !bits[0] && previous is Some {
            lemma_decompressed_sizes(element_size, bits.skip(1), previous);
        }
    }
}

/// One more element costs a single bit where it repeats the last one, and one bit more than its
/// own size where it does not.
pub proof fn lemma_compressed_push(elements: Seq<Seq<bool>>, element: Seq<bool>)
    ensures
        compressed(elements.push(element)) == compressed(elements) + (if elements.len() > 0
            && elements.last() == element {
            seq![false]
        } else {
            seq![true] + element
        }),
{
    lemma_compressed_push_from(elements, element, 0);
}

proof fn lemma_compressed_push_from(elements: Seq<Seq<bool>>, element: Seq<bool>, i: int)
    requires
        0 <= i <= elements.len(),
    ensures
        compressed_from(elements.push(element), i) == compressed_from(elements, i) + chunk(
            elements.push(element),
            elements.len() as int,
        ),
    decreases elements.len() - i,
{
    let longer = elements.push(element);
    let last = chunk(longer, elements.len() as int);
    if i < elements.len() {
        lemma_compressed_push_from(elements, element, i + 1);
        assert(chunk(longer, i) == chunk(elements, i));
        assert(compressed_from(longer, i) =~= compressed_from(elements, i) + last);
    } else {
        assert(compressed_from(longer, i + 1) =~= Seq::empty());
        assert(compressed_from(longer, i) =~= compressed_from(elements, i) + last);
    }
}

/// Compressing never takes more than one bit per element on top of the elements themselves.
pub proof fn lemma_compressed_len(element_size: nat, elements: Seq<Seq<bool>>)
    requires
        equally_sized(element_size, elements),
    ensures
        elements.len() <= compressed(elements).len() <= elements.len() * (element_size + 1),
{
    lemma_compressed_len_from(element_size, elements, 0);
}

proof fn lemma_compressed_len_from(element_size: nat, elements: Seq<Seq<bool>>, i: int)
    requires
        equally_sized(element_size, elements),
        0 <= i <= elements.len(),
    ensures
        elements.len() - i <= compressed_from(elements, i).len() <= (elements.len() - i) * (
        element_size + 1),
    decreases elements.len() - i,
{
    if i < elements.len() {
        lemma_compressed_len_from(element_size, elements, i + 1);
        let n = elements.len() - i - 1;
        assert((n + 1) * (element_size + 1) == n * (element_size + 1) + (element_size + 1))
            by (nonlinear_arith);
    }
}

/// The bits in use lie in the words from the least significant bit up, 32 to a word.
pub proof fn lemma_bits_lie_in_words(words: Seq<u32>, last_bits: u8, i: int)
    requires
        words.len() >= 1,
        last_bits <= 32,
    ensures
        unpacked(words, last_bits).len() == 32 * (words.len() - 1) + last_bits,
        0 <= i < 32 * (words.len() - 1) + last_bits ==> unpacked(words, last_bits)[i] == (words[i
            / 32] & (1u32 << ((i % 32) as u32)) != 0),
{
}

/// The elements of a series are the bits of its vectors, each whole and in its place.
pub proof fn lemma_elements_are_the_bits(seq: Seq<BitVec>)
    ensures
        bits_of(seq).len() == seq.len(),
        forall|i: int| 0 <= i < seq.len() ==> #[trigger] bits_of(seq)[i] == seq[i]@,
{
}

/// Elements are of the same size when any two of them are.
pub proof fn lemma_same_size_of_any_two(elements: Seq<Seq<bool>>)
    ensures
        all_same_size(elements) <==> forall|i: int, j: int|
            0 <= i < elements.len() && 0 <= j < elements.len() ==> (#[trigger] elements[i]).len()
                == (#[trigger] elements[j]).len(),
        elements.len() > 0 ==> size_of_first(elements) == elements[0].len(),
        elements.len() == 0 ==> size_of_first(elements) == 0,
{
}

/// Nothing compresses to nothing. With what one more element adds, that fixes the compressed form
/// of every series.
pub proof fn lemma_compressed_empty()
    ensures
        compressed(Seq::empty()) == Seq::<bool>::empty(),
{
}

/// A one bit and the bits of an element stand for that element, and for what the rest stands for
/// after it.
pub proof fn lemma_one_bit_starts_an_element(
    element: Seq<bool>,
    rest: Seq<bool>,
    previous: Option<Seq<bool>>,
)
    ensures
        decompressed(element.len(), seq![true] + element + rest, previous) == (match decompressed(
            element.len(),
            rest,
            Some(element),
        ) {
            Some(elements) => Some(seq![element] + elements),
            None => None::<Seq<Seq<bool>>>,
        }),
{
    let bits = seq![true] + element + rest;
    assert(bits[0]);
    assert(bits.subrange(1, 1 + element.len() as int) =~= element);
    assert(bits.skip(1 + element.len() as int) =~= rest);
}

/// A zero bit stands for the element before it once more, and for nothing where there is none.
pub proof fn lemma_zero_bit_repeats(element: Seq<bool>, rest: Seq<bool>)
    ensures
        decompressed(element.len(), seq![false] + rest, Some(element)) == (match decompressed(
            element.len(),
            rest,
            Some(element),
        ) {
            Some(elements) => Some(seq![element] + elements),
            None => None::<Seq<Seq<bool>>>,
        }),
        decompressed(element.len(), seq![false] + rest, None) is None,
{
    let bits = seq![false] + rest;
    assert(!bits[0]);
    assert(bits.skip(1) =~= rest);
}

/// No bits stand for no elements, and an element that is cut short for nothing.
pub proof fn lemma_payload_ends_with_an_element(
    element_size: nat,
    rest: Seq<bool>,
    previous: Option<Seq<bool>>,
)
    ensures
        decompressed(element_size, Seq::empty(), previous) == Some(Seq::<Seq<bool>>::empty()),
        rest.len() < element_size ==> decompressed(element_size, seq![true] + rest, previous) is None,
{
    assert((seq![true] + rest)[0]);
}

/// A value stands for the elements that its payload does, and for none where its last word is said
/// to hold more bits than a word has.
pub proof fn lemma_value_stands_for_its_payload(value: CompressedBitVec)
    ensures
        value.last_bits() <= 32 ==> value.decoded() == decompressed(
            value.element_bits(),
            unpacked(value.words(), value.last_bits()),
            None,
        ),
        value.last_bits() > 32 ==> value.decoded() is None,
        value.payload() == unpacked(value.words(), value.last_bits()),
{
}

/// Vectors are equal exactly when they hold the same bits, and compressed values exactly when all
/// their fields are the same.
pub proof fn lemma_equality(a: BitVec, b: BitVec, c: CompressedBitVec, d: CompressedBitVec)
    ensures
        a.eq_spec(&b) <==> a@ == b@,
        c.eq_spec(&d) <==> c.words() == d.words() && c.last_bits() == d.last_bits()
            && c.element_bits() == d.element_bits(),
{
}

} // verus!
