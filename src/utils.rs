use vstd::prelude::*;

verus! {

/// How wide the address, offset and size fields of an object file are.
#[derive(Clone, Copy, Debug, PartialEq, Eq, Structural)]
pub enum AddressWidth {
    ThirtyTwoBit,
    SixtyFourBit,
}

/// The order in which the bytes of a multi-byte field are stored.
#[derive(Clone, Copy, Debug, PartialEq, Eq, Structural)]
pub enum ByteOrder {
    Little,
    Big,
}

/// The coded fields whose raw values must belong to a closed table.
#[derive(Clone, Copy, Debug, PartialEq, Eq, Structural)]
pub enum CodedField {
    Class,
    Data,
    OsAbi,
    ObjectType,
    Machine,
    SegmentType,
    SectionType,
    SectionFlags,
}

/// Why a header could not be decoded.
#[derive(Clone, Copy, Debug, PartialEq, Eq, Structural)]
pub enum DecodeError {
    /// The buffer ends before the field of `width` bytes at `offset` does.
    Truncated { offset: usize, width: usize },
    /// The first four bytes are not `0x7f 'E' 'L' 'F'`.
    BadMagic,
    /// `value` is not one of the codes defined for `field`.
    UnrecognizedCode { field: CodedField, value: u64 },
}

/// Number of bytes in an address, offset or size field.
pub open spec fn word_len(w: AddressWidth) -> nat {
    match w {
        AddressWidth::ThirtyTwoBit => 4,
        AddressWidth::SixtyFourBit => 8,
    }
}

impl AddressWidth {
    /// Number of bytes in an address, offset or size field.
    pub fn word_bytes(self) -> (r: usize)
        ensures
            r == word_len(self),
    {
        match self {
            AddressWidth::ThirtyTwoBit => 4,
            AddressWidth::SixtyFourBit => 8,
        }
    }
}

/// 256 to the power `n`.
pub open spec fn pow256(n: nat) -> nat
    decreases n,
{
    if n == 0 {
        1
    } else {
        256 * pow256((n - 1) as nat)
    }
}

/// The value of `s` read little-endian: byte `i` weighs `256^i`.
pub open spec fn uint_le(s: Seq<u8>) -> nat
    decreases s.len(),
{
    if s.len() == 0 {
        0
    } else {
        s[0] as nat + 256 * uint_le(s.drop_first())
    }
}

/// The value of `s` read big-endian: byte `i` weighs `256^(len - 1 - i)`.
pub open spec fn uint_be(s: Seq<u8>) -> nat
    decreases s.len(),
{
    if s.len() == 0 {
        0
    } else {
        uint_be(s.drop_last()) * 256 + s.last() as nat
    }
}

/// The value of `s` read in byte order `o`.
pub open spec fn uint_of(s: Seq<u8>, o: ByteOrder) -> nat {
    match o {
        ByteOrder::Little => uint_le(s),
        ByteOrder::Big => uint_be(s),
    }
}

/// The value of the `width` bytes of `d` that start at `start`, read in byte order `o`.
pub open spec fn field_value(d: Seq<u8>, start: int, width: int, o: ByteOrder) -> nat {
    uint_of(d.subrange(start, start + width), o)
}

/// Whether `d` holds the whole field of `width` bytes at `start`.
pub open spec fn fits(d: Seq<u8>, start: int, width: int) -> bool {
    start + width <= d.len()
}

/// The error for a field of `width` bytes at `start` that the buffer does not hold.
pub open spec fn truncated(start: int, width: int) -> DecodeError {
    DecodeError::Truncated { offset: start as usize, width: width as usize }
}

/// The first field among `field(i)`, ..., `field(n - 1)`, each an offset and
/// a width, that `d` does not hold whole, as the error that reports it.
pub open spec fn first_short(
    d: Seq<u8>,
    field: spec_fn(int) -> (int, int),
    i: int,
    n: int,
) -> Option<DecodeError>
    decreases n - i,
{
    if i >= n || i < 0 {
        None
    } else if !fits(d, field(i).0, field(i).1) {
        Some(truncated(field(i).0, field(i).1))
    } else {
        first_short(d, field, i + 1, n)
    }
}

/// The error for a code `value` that is not in the table of `field`.
pub open spec fn unrecognized(field: CodedField, value: u64) -> DecodeError {
    DecodeError::UnrecognizedCode { field, value }
}

/// The powers of 256 that field widths use.
pub proof fn lemma_pow256_8()
    ensures
        pow256(1) == 0x100,
        pow256(2) == 0x10000,
        pow256(4) == 0x1_0000_0000,
        pow256(8) == 0x1_0000_0000_0000_0000,
{
    reveal_with_fuel(pow256, 9);
}

/// A little-endian field of `n` bytes holds a value below `256^n`.
pub proof fn lemma_uint_le_bound(s: Seq<u8>)
    ensures
        uint_le(s) < pow256(s.len()),
    decreases s.len(),
{
    if s.len() > 0 {
        lemma_uint_le_bound(s.drop_first());
        let r = uint_le(s.drop_first());
        let p = pow256((s.len() - 1) as nat);
        assert(s[0] as nat + 256 * r < 256 * p) by (nonlinear_arith)
            requires
                r < p,
                s[0] < 256,
        ;
    }
}

/// A big-endian field of `n` bytes holds a value below `256^n`.
pub proof fn lemma_uint_be_bound(s: Seq<u8>)
    ensures
        uint_be(s) < pow256(s.len()),
    decreases s.len(),
{
    if s.len() > 0 {
        lemma_uint_be_bound(s.drop_last());
        let r = uint_be(s.drop_last());
        let p = pow256((s.len() - 1) as nat);
        assert(r * 256 + s.last() < 256 * p) by (nonlinear_arith)
            requires
                r < p,
                s.last() < 256,
        ;
    }
}

/// A field of `n` bytes holds a value below `256^n` in either byte order.
pub proof fn lemma_uint_of_bound(s: Seq<u8>, o: ByteOrder)
    ensures
        uint_of(s, o) < pow256(s.len()),
{
    lemma_uint_le_bound(s);
    lemma_uint_be_bound(s);
}

/// Reads the unsigned integer held by the `width` bytes of `data` that
/// start at `start`, as the place-value sum of its bytes in byte order
/// `order`: little-endian gives byte `i` the weight `256^i`, big-endian
/// `256^(width - 1 - i)`. Fails with `Truncated` when `data` ends first.
pub fn sum_offset(data: &[u8], start: usize, width: usize, order: ByteOrder) -> (r: Result<
    u64,
    DecodeError,
>)
    requires
        1 <= width <= 8,
    ensures
        match r {
            Ok(v) => fits(data@, start as int, width as int) && v == field_value(
                data@,
                start as int,
                width as int,
                order,
            ) && v < pow256(width as nat),
            Err(e) => !fits(data@, start as int, width as int) && e == truncated(
                start as int,
                width as int,
            ),
        },
{
    if start > data.len() || width > data.len() - start {
        return Err(DecodeError::Truncated { offset: start, width });
    }
    let ghost w = data@.subrange(start as int, start + width);
    proof {
        lemma_pow256_8();
        lemma_pow_mono(width as nat, 8);
    }
    let mut v: u64 = 0;
    match order {
        ByteOrder::Little => {
            let mut i: usize = width;
            while i > 0
                invariant
                    0 <= i <= width,
                    start + width <= data@.len(),
                    data@.len() <= usize::MAX,
                    width <= 8,
                    w == data@.subrange(start as int, start + width),
                    v == uint_le(w.subrange(i as int, width as int)),
                    pow256(width as nat) <= pow256(8),
                    pow256(8) == 0x1_0000_0000_0000_0000,
                decreases i,
            {
                let ghost rest = w.subrange(i as int, width as int);
                let ghost next = w.subrange(i - 1, width as int);
                proof {
                    assert(next.drop_first() =~= rest);
                    lemma_uint_le_bound(next);
                    lemma_pow_mono(next.len(), 8);
                    assert(next[0] == data@[start + i - 1]);
                    assert(uint_le(next) == next[0] as nat + 256 * v);
                }
                v = v * 256 + data[start + i - 1] as u64;
                i = i - 1;
            }
            assert(w.subrange(0, width as int) =~= w);
        },
        ByteOrder::Big => {
            let mut i: usize = 0;
            while i < width
                invariant
                    0 <= i <= width,
                    start + width <= data@.len(),
                    data@.len() <= usize::MAX,
                    width <= 8,
                    w == data@.subrange(start as int, start + width),
                    v == uint_be(w.subrange(0, i as int)),
                    pow256(width as nat) <= pow256(8),
                    pow256(8) == 0x1_0000_0000_0000_0000,
                decreases width - i,
            {
                let ghost prev = w.subrange(0, i as int);
                let ghost next = w.subrange(0, i + 1);
                proof {
                    assert(next.drop_last() =~= prev);
                    lemma_uint_be_bound(next);
                    lemma_pow_mono(next.len(), 8);
                    assert(next.last() == data@[start + i]);
                    assert(uint_be(next) == v * 256 + next.last() as nat);
                }
                v = v * 256 + data[start + i] as u64;
                i = i + 1;
            }
            assert(w.subrange(0, width as int) =~= w);
        },
    }
    proof {
        lemma_uint_of_bound(w, order);
    }
    Ok(v)
}

/// `256^a <= 256^b` when `a <= b`.
pub proof fn lemma_pow_mono(a: nat, b: nat)
    requires
        a <= b,
    ensures
        pow256(a) <= pow256(b),
    decreases b,
{
    if a < b {
        lemma_pow_mono(a, (b - 1) as nat);
    }
}

/// The bytes of `s` in the opposite order.
pub open spec fn reversed(s: Seq<u8>) -> Seq<u8> {
    Seq::new(s.len(), |i: int| s[s.len() - 1 - i])
}

/// The bytes of a field read little-endian give the same integer as the
/// same bytes in the opposite order read big-endian.
pub proof fn lemma_byte_order_mirror(s: Seq<u8>)
    ensures
        uint_of(s, ByteOrder::Little) == uint_of(reversed(s), ByteOrder::Big),
    decreases s.len(),
{
    if s.len() > 0 {
        let r = reversed(s);
        lemma_byte_order_mirror(s.drop_first());
        assert(r.drop_last() =~= reversed(s.drop_first()));
        assert(r.last() == s[0]);
    }
}

/// Two fields of equal length with equal little-endian values hold the same bytes.
pub proof fn lemma_uint_le_injective(a: Seq<u8>, b: Seq<u8>)
    requires
        a.len() == b.len(),
        uint_le(a) == uint_le(b),
    ensures
        a == b,
    decreases a.len(),
{
    if a.len() > 0 {
        let x = uint_le(a.drop_first());
        let y = uint_le(b.drop_first());
        let p = a[0] as int;
        let q = b[0] as int;
        assert(p == q && x == y) by (nonlinear_arith)
            requires
                p + 256 * x == q + 256 * y,
                0 <= p < 256,
                0 <= q < 256,
                x >= 0,
                y >= 0,
        ;
        lemma_uint_le_injective(a.drop_first(), b.drop_first());
        assert(a =~= b.drop_first().insert(0, b[0]));
        assert(b =~= b.drop_first().insert(0, b[0]));
    } else {
        assert(a =~= b);
    }
}

/// Reading a field in the wrong byte order gives another integer, unless
/// its bytes read the same both ways.
pub proof fn lemma_byte_order_matters(s: Seq<u8>)
    requires
        s != reversed(s),
    ensures
        uint_of(s, ByteOrder::Little) != uint_of(s, ByteOrder::Big),
{
    let r = reversed(s);
    lemma_byte_order_mirror(r);
    assert(reversed(r) =~= s);
    if uint_le(s) == uint_le(r) {
        lemma_uint_le_injective(s, r);
    }
}

/// A field encoded little-endian and the same field encoded big-endian,
/// each read in its own byte order, give the same integer.
pub proof fn lemma_byte_order_round_trip(
    le: Seq<u8>,
    be: Seq<u8>,
    start_le: int,
    start_be: int,
    width: int,
)
    requires
        0 <= start_le,
        0 <= start_be,
        fits(le, start_le, width),
        fits(be, start_be, width),
        be.subrange(start_be, start_be + width) == reversed(le.subrange(start_le, start_le + width)),
    ensures
        field_value(le, start_le, width, ByteOrder::Little) == field_value(
            be,
            start_be,
            width,
            ByteOrder::Big,
        ),
{
    lemma_byte_order_mirror(le.subrange(start_le, start_le + width));
}

/// Cutting `d` one byte short of the end of field `j`, where the fields
/// before it end no later, makes field `j` the first one missing.
pub proof fn lemma_first_short_cut(
    d: Seq<u8>,
    field: spec_fn(int) -> (int, int),
    i: int,
    j: int,
    n: int,
    len: int,
)
    requires
        0 <= i <= j < n,
        first_short(d, field, i, n) is None,
        forall|k: int| i <= k < j ==> #[trigger] field(k).0 + field(k).1 <= len,
        0 <= len < field(j).0 + field(j).1,
        len <= d.len(),
    ensures
        first_short(d.take(len), field, i, n) == Some(truncated(field(j).0, field(j).1)),
    decreases j - i,
{
    if i < j {
        assert(field(i).0 + field(i).1 <= len);
        lemma_first_short_cut(d, field, i + 1, j, n, len);
    }
}

/// Where no field from `i` on is missing, `d` holds each of them whole.
pub proof fn lemma_first_short_none(d: Seq<u8>, field: spec_fn(int) -> (int, int), i: int, n: int)
    requires
        0 <= i,
        first_short(d, field, i, n) is None,
    ensures
        forall|k: int| i <= k < n ==> fits(d, #[trigger] field(k).0, field(k).1),
    decreases n - i,
{
    if i < n {
        lemma_first_short_none(d, field, i + 1, n);
    }
}

/// Which fields are missing depends on the length of the buffer alone.
pub proof fn lemma_first_short_len(
    d: Seq<u8>,
    d2: Seq<u8>,
    field: spec_fn(int) -> (int, int),
    i: int,
    n: int,
)
    requires
        d.len() == d2.len(),
    ensures
        first_short(d, field, i, n) == first_short(d2, field, i, n),
    decreases n - i,
{
    if 0 <= i < n {
        lemma_first_short_len(d, d2, field, i + 1, n);
    }
}

/// Two buffers that agree on the bytes of a field read the same value there.
pub proof fn lemma_field_value_same(
    d: Seq<u8>,
    d2: Seq<u8>,
    start: int,
    width: int,
    o: ByteOrder,
)
    requires
        0 <= start,
        0 <= width,
        start + width <= d.len(),
        start + width <= d2.len(),
        forall|k: int| start <= k < start + width ==> d2[k] == d[k],
    ensures
        field_value(d2, start, width, o) == field_value(d, start, width, o),
{
    assert(d2.subrange(start, start + width) =~= d.subrange(start, start + width));
}

/// A one-byte field reads as that byte in either byte order.
pub proof fn lemma_field_value_byte(d: Seq<u8>, start: int, o: ByteOrder)
    requires
        0 <= start < d.len(),
    ensures
        field_value(d, start, 1, o) == d[start],
{
    let s = d.subrange(start, start + 1);
    reveal_with_fuel(uint_le, 2);
    reveal_with_fuel(uint_be, 2);
    assert(s.drop_first().len() == 0);
    assert(s.drop_last().len() == 0);
}

/// Where `d` holds each field from `i` on whole, none of them is missing.
pub proof fn lemma_first_short_all_fit(
    d: Seq<u8>,
    field: spec_fn(int) -> (int, int),
    i: int,
    n: int,
)
    requires
        0 <= i,
        forall|k: int| i <= k < n ==> fits(d, #[trigger] field(k).0, field(k).1),
    ensures
        first_short(d, field, i, n) is None,
    decreases n - i,
{
    if i < n {
        lemma_first_short_all_fit(d, field, i + 1, n);
    }
}

/// The `n` bytes that hold `v` little-endian.
pub open spec fn encode_le(v: nat, n: nat) -> Seq<u8>
    decreases n,
{
    if n == 0 {
        Seq::empty()
    } else {
        seq![(v % 256) as u8] + encode_le(v / 256, (n - 1) as nat)
    }
}

/// The `n` bytes that hold `v` in byte order `o`.
pub open spec fn encode(v: nat, n: nat, o: ByteOrder) -> Seq<u8> {
    match o {
        ByteOrder::Little => encode_le(v, n),
        ByteOrder::Big => reversed(encode_le(v, n)),
    }
}

/// Whether the `width` bytes of `d` at `start` hold `v` in byte order `o`.
pub open spec fn encodes(d: Seq<u8>, start: int, width: int, v: nat, o: ByteOrder) -> bool {
    &&& 0 <= start
    &&& 0 <= width
    &&& fits(d, start, width)
    &&& d.subrange(start, start + width) == encode(v, width as nat, o)
}

proof fn lemma_encode_le(v: nat, n: nat)
    requires
        v < pow256(n),
    ensures
        encode_le(v, n).len() == n,
        uint_le(encode_le(v, n)) == v,
    decreases n,
{
    if n > 0 {
        let p = pow256((n - 1) as nat);
        assert(v / 256 < p) by (nonlinear_arith)
            requires
                v < 256 * p,
        ;
        lemma_encode_le(v / 256, (n - 1) as nat);
        let e = encode_le(v, n);
        assert(e.drop_first() =~= encode_le(v / 256, (n - 1) as nat));
        assert(v == v % 256 + 256 * (v / 256)) by (nonlinear_arith);
    }
}

/// Reading back a value that fits in a field gives the value itself.
pub proof fn lemma_encode_read(d: Seq<u8>, start: int, width: int, v: nat, o: ByteOrder)
    requires
        encodes(d, start, width, v, o),
        v < pow256(width as nat),
    ensures
        field_value(d, start, width, o) == v,
{
    lemma_encode_le(v, width as nat);
    lemma_byte_order_mirror(encode_le(v, width as nat));
}

/// A field that ends within the first `len` bytes of `d` reads the same in
/// `d.take(len)`.
pub proof fn lemma_field_value_take(d: Seq<u8>, len: int, start: int, width: int, o: ByteOrder)
    requires
        0 <= start,
        0 <= width,
        start + width <= len <= d.len(),
    ensures
        field_value(d.take(len), start, width, o) == field_value(d, start, width, o),
{
    assert(d.take(len).subrange(start, start + width) =~= d.subrange(start, start + width));
}

} // verus!
