use vstd::prelude::*;

verus! {

/// An owned byte string: hashes, public keys, signatures and identity digests.
#[derive(Debug)]
pub struct Bytes {
    data: Vec<u8>,
}

impl View for Bytes {
    type V = Seq<u8>;

    closed spec fn view(&self) -> Seq<u8> {
        self.data@
    }
}

/// True when every byte is zero (vacuously true of the empty string).
pub open spec fn all_zero(s: Seq<u8>) -> bool {
    forall|i: int| 0 <= i < s.len() ==> s[i] == 0
}

/// Big-endian value of a byte string.
pub open spec fn be_value(s: Seq<u8>) -> nat
    decreases s.len(),
{
    if s.len() == 0 {
        0
    } else {
        be_value(s.drop_last()) * 256 + s.last() as nat
    }
}

/// The last (at most) eight bytes of `s`: its low 64 bits read as a big-endian number.
pub open spec fn tail_bytes(s: Seq<u8>) -> Seq<u8> {
    if s.len() <= 8 {
        s
    } else {
        s.subrange(s.len() - 8, s.len() as int)
    }
}

pub open spec fn tail_value(s: Seq<u8>) -> nat {
    be_value(tail_bytes(s))
}

pub open spec fn pow256(n: nat) -> nat
    decreases n,
{
    if n == 0 {
        1
    } else {
        256 * pow256((n - 1) as nat)
    }
}

proof fn lemma_be_value_bound(s: Seq<u8>)
    ensures
        be_value(s) < pow256(s.len()),
    decreases s.len(),
{
    if s.len() > 0 {
        lemma_be_value_bound(s.drop_last());
        let p = pow256((s.len() - 1) as nat);
        let v = be_value(s.drop_last());
        let l = s.last() as nat;
        assert(v * 256 + l < 256 * p) by (nonlinear_arith)
            requires
                v < p,
                l < 256,
        ;
    }
}

pub fn bytes_equal(a: &[u8], b: &[u8]) -> (r: bool)
    ensures
        r == (a@ == b@),
{
    if a.len() != b.len() {
        return false;
    }
    let mut i: usize = 0;
    while i < a.len()
        invariant
            a@.len() == b@.len(),
            0 <= i <= a@.len(),
            forall|j: int| 0 <= j < i ==> a@[j] == b@[j],
        decreases a@.len() - i,
    {
        if a[i] != b[i] {
            return false;
        }
        i += 1;
    }
    assert(a@ =~= b@);
    true
}

impl Clone for Bytes {
    fn clone(&self) -> (r: Bytes)
        ensures
            r@ == self@,
    {
        Bytes::from_bytes(self.data.as_slice())
    }
}

impl Bytes {
    pub fn new(data: Vec<u8>) -> (r: Bytes)
        ensures
            r@ == data@,
    {
        Bytes { data }
    }

    pub fn from_bytes(src: &[u8]) -> (r: Bytes)
        ensures
            r@ == src@,
    {
        let mut data: Vec<u8> = Vec::new();
        let mut i: usize = 0;
        while i < src.len()
            invariant
                0 <= i <= src@.len(),
                data@ == src@.subrange(0, i as int),
            decreases src@.len() - i,
        {
            data.push(src[i]);
            i += 1;
            assert(data@ =~= src@.subrange(0, i as int));
        }
        assert(data@ =~= src@);
        Bytes { data }
    }

    pub fn empty() -> (r: Bytes)
        ensures
            r@ == Seq::<u8>::empty(),
    {
        Bytes { data: Vec::new() }
    }

    pub fn as_slice(&self) -> (r: &[u8])
        ensures
            r@ == self@,
    {
        self.data.as_slice()
    }

    pub fn len(&self) -> (r: usize)
        ensures
            r == self@.len(),
    {
        self.data.len()
    }

    pub fn is_empty(&self) -> (r: bool)
        ensures
            r == (self@.len() == 0),
    {
        self.data.len() == 0
    }

    pub fn is_zero(&self) -> (r: bool)
        ensures
            r == all_zero(self@),
    {
        let mut i: usize = 0;
        while i < self.data.len()
            invariant
                0 <= i <= self@.len(),
                forall|j: int| 0 <= j < i ==> self@[j] == 0,
            decreases self@.len() - i,
        {
            if self.data[i] != 0 {
                return false;
            }
            i += 1;
        }
        true
    }

    pub fn same(&self, other: &Bytes) -> (r: bool)
        ensures
            r == (self@ == other@),
    {
        bytes_equal(self.data.as_slice(), other.data.as_slice())
    }

    /// The low 64 bits of the byte string read as a big-endian number.
    pub fn get_tail_u64(&self) -> (r: u64)
        ensures
            r as nat == tail_value(self@),
    {
        let n = self.data.len();
        let start: usize = if n > 8 { n - 8 } else { 0 };
        let ghost t = tail_bytes(self@);
        assert(t =~= self@.subrange(start as int, n as int));
        let mut acc: u64 = 0;
        let mut i: usize = start;
        while i < n
            invariant
                n == self@.len(),
                start <= i <= n,
                n - start <= 8,
                t == self@.subrange(start as int, n as int),
                acc as nat == be_value(self@.subrange(start as int, i as int)),
            decreases n - i,
        {
            let ghost prefix = self@.subrange(start as int, i as int);
            let ghost next = self@.subrange(start as int, i + 1);
            proof {
                assert(next.drop_last() =~= prefix);
                lemma_be_value_bound(next);
                reveal_with_fuel(pow256, 9);
                assert(pow256(8) == 0x1_0000_0000_0000_0000);
                lemma_pow256_mono(next.len(), 8);
            }
            acc = acc * 256 + self.data[i] as u64;
            i += 1;
        }
        acc
    }

    /// Whether the byte string starts with at least `n` zero bits.
    pub fn has_leading_zero_bits(&self, n: u32) -> (r: bool)
        ensures
            r == (leading_zeros(self@) >= n),
    {
        let mut count: u64 = 0;
        let mut i: usize = 0;
        assert(self@.subrange(0, self@.len() as int) =~= self@);
        while i < self.data.len()
            invariant
                0 <= i <= self@.len(),
                count == 8 * i,
                count <= n + 8,
                leading_zeros(self@) == count + leading_zeros(self@.subrange(i as int, self@.len() as int)),
            decreases self@.len() - i,
        {
            if count >= n as u64 {
                return true;
            }
            let ghost rest = self@.subrange(i as int, self@.len() as int);
            let b = self.data[i];
            if b != 0 {
                return count + byte_leading_zeros(b) as u64 >= n as u64;
            }
            assert(rest.drop_first() =~= self@.subrange(i + 1, self@.len() as int));
            count += 8;
            i += 1;
        }
        assert(self@.subrange(i as int, self@.len() as int) =~= Seq::<u8>::empty());
        count >= n as u64
    }
}

proof fn lemma_pow256_mono(a: nat, b: nat)
    requires
        a <= b,
    ensures
        pow256(a) <= pow256(b),
    decreases b,
{
    if a < b {
        lemma_pow256_mono(a, (b - 1) as nat);
    }
}

/// Leading zero bits of one byte.
pub open spec fn byte_lz(b: u8) -> nat {
    if b >= 128 { 0 }
    else if b >= 64 { 1 }
    else if b >= 32 { 2 }
    else if b >= 16 { 3 }
    else if b >= 8 { 4 }
    else if b >= 4 { 5 }
    else if b >= 2 { 6 }
    else if b >= 1 { 7 }
    else { 8 }
}

/// Leading zero bits of a byte string, most significant bit of the first byte first.
pub open spec fn leading_zeros(s: Seq<u8>) -> nat
    decreases s.len(),
{
    if s.len() == 0 {
        0
    } else if s[0] == 0 {
        8 + leading_zeros(s.drop_first())
    } else {
        byte_lz(s[0])
    }
}

fn byte_leading_zeros(b: u8) -> (r: u8)
    ensures
        r as nat == byte_lz(b),
{
    if b >= 128 { 0 }
    else if b >= 64 { 1 }
    else if b >= 32 { 2 }
    else if b >= 16 { 3 }
    else if b >= 8 { 4 }
    else if b >= 4 { 5 }
    else if b >= 2 { 6 }
    else if b >= 1 { 7 }
    else { 8 }
}

} // verus!
