//! Bytes on the wire and in flash: little-endian numbers and the checksum over records.
use vstd::prelude::*;

verus! {

/// The 16-bit little-endian number at `i`.
pub open spec fn le16(b: Seq<u8>, i: int) -> int {
    b[i] + 0x100 * b[i + 1]
}

/// The 32-bit little-endian number at `i`.
pub open spec fn le32(b: Seq<u8>, i: int) -> int {
    b[i] + 0x100 * b[i + 1] + 0x1_0000 * b[i + 2] + 0x100_0000 * b[i + 3]
}

/// The 64-bit little-endian number at `i`.
pub open spec fn le64(b: Seq<u8>, i: int) -> int {
    le32(b, i) + 0x1_0000_0000 * le32(b, i + 4)
}

/// A 16-bit number, low byte first.
pub open spec fn bytes16(x: u16) -> Seq<u8> {
    seq![(x % 256) as u8, (x / 256) as u8]
}

/// A 32-bit number, low byte first.
pub open spec fn bytes32(x: u32) -> Seq<u8> {
    seq![
        (x % 256) as u8,
        (x / 256 % 256) as u8,
        (x / 65_536 % 256) as u8,
        (x / 16_777_216) as u8,
    ]
}

/// A 64-bit number, low byte first.
pub open spec fn bytes64(x: u64) -> Seq<u8> {
    bytes32((x % 0x1_0000_0000) as u32) + bytes32((x / 0x1_0000_0000) as u32)
}

/// Reading back a 32-bit number gives what was written.
pub proof fn lemma_bytes32(x: u32)
    ensures
        le32(bytes32(x), 0) == x,
        bytes32(x).len() == 4,
{
}

/// Appends a 16-bit number, low byte first.
pub fn put16(out: &mut Vec<u8>, x: u16)
    ensures
        final(out)@ == old(out)@ + bytes16(x),
{
    out.push((x % 256) as u8);
    out.push((x / 256) as u8);
    assert(out@ =~= old(out)@ + bytes16(x));
}

/// Appends a 32-bit number, low byte first.
pub fn put32(out: &mut Vec<u8>, x: u32)
    ensures
        final(out)@ == old(out)@ + bytes32(x),
{
    out.push((x % 256) as u8);
    out.push((x / 256 % 256) as u8);
    out.push((x / 65_536 % 256) as u8);
    out.push((x / 16_777_216) as u8);
    assert(out@ =~= old(out)@ + bytes32(x));
}

/// Appends a 64-bit number, low byte first.
pub fn put64(out: &mut Vec<u8>, x: u64)
    ensures
        final(out)@ == old(out)@ + bytes64(x),
{
    put32(out, (x % 0x1_0000_0000) as u32);
    put32(out, (x / 0x1_0000_0000) as u32);
    assert(out@ =~= old(out)@ + bytes64(x));
}

/// Reads the 16-bit little-endian number at `i`.
pub fn get16(b: &[u8], i: usize) -> (r: u16)
    requires
        i + 2 <= b@.len(),
    ensures
        r == le16(b@, i as int),
{
    b[i] as u16 + 0x100 * b[i + 1] as u16
}

/// Reads the 32-bit little-endian number at `i`.
pub fn get32(b: &[u8], i: usize) -> (r: u32)
    requires
        i + 4 <= b@.len(),
    ensures
        r == le32(b@, i as int),
{
    b[i] as u32 + 0x100 * b[i + 1] as u32 + 0x1_0000 * b[i + 2] as u32 + 0x100_0000 * b[i
        + 3] as u32
}

/// Reads the 64-bit little-endian number at `i`.
pub fn get64(b: &[u8], i: usize) -> (r: u64)
    requires
        i + 8 <= b@.len(),
    ensures
        r == le64(b@, i as int),
{
    assert(b@.len() == b.len());
    get32(b, i) as u64 + 0x1_0000_0000 * get32(b, i + 4) as u64
}

/// The bytes of a vector as an array of the same length.
pub fn to_array<const N: usize>(v: &Vec<u8>) -> (r: [u8; N])
    requires
        v@.len() == N,
    ensures
        r@ == v@,
{
    let mut out: [u8; N] = [0;N];
    let mut i: usize = 0;
    while i < N
        invariant
            i <= N,
            v@.len() == N,
            forall|j: int| 0 <= j < i ==> #[trigger] out@[j] == v@[j],
        decreases N - i,
    {
        out[i] = v[i];
        i += 1;
    }
    assert(out@ =~= v@);
    out
}

/// Shift a checksum by one bit through the polynomial x^16 + x^12 + x^5 + 1.
pub open spec fn crc_bit(crc: u16) -> u16 {
    if crc & 0x8000 != 0 {
        (crc << 1) ^ 0x1021
    } else {
        crc << 1
    }
}

/// Shift a checksum by `n` bits.
pub open spec fn crc_bits(crc: u16, n: nat) -> u16
    decreases n,
{
    if n == 0 {
        crc
    } else {
        crc_bit(crc_bits(crc, (n - 1) as nat))
    }
}

/// Take one byte into a checksum.
pub open spec fn crc_byte(crc: u16, b: u8) -> u16 {
    crc_bits(crc ^ ((b as u16) << 8), 8)
}

/// CRC-16/CCITT-FALSE of a byte sequence.
pub open spec fn crc16_of(data: Seq<u8>) -> u16
    decreases data.len(),
{
    if data.len() == 0 {
        0xffff
    } else {
        crc_byte(crc16_of(data.drop_last()), data.last())
    }
}

/// CRC-16/CCITT-FALSE over the first `n` bytes.
pub fn crc16(data: &[u8], n: usize) -> (r: u16)
    requires
        n <= data@.len(),
    ensures
        r == crc16_of(data@.take(n as int)),
{
    let mut crc: u16 = 0xffff;
    let mut i: usize = 0;
    assert(data@.take(0).len() == 0);
    while i < n
        invariant
            i <= n <= data@.len(),
            crc == crc16_of(data@.take(i as int)),
        decreases n - i,
    {
        let byte: u8 = data[i];
        crc = crc ^ ((byte as u16) << 8);
        let ghost mixed = crc;
        let mut k: u8 = 0;
        while k < 8
            invariant
                k <= 8,
                crc == crc_bits(mixed, k as nat),
            decreases 8 - k,
        {
            crc = if crc & 0x8000 != 0 {
                (crc << 1) ^ 0x1021
            } else {
                crc << 1
            };
            k += 1;
        }
        proof {
            let upto = data@.take(i + 1);
            assert(upto.drop_last() =~= data@.take(i as int));
            assert(upto.last() == byte);
        }
        i += 1;
    }
    crc
}

proof fn lemma_crc_bit_injective(a: u16, b: u16)
    requires
        crc_bit(a) == crc_bit(b),
    ensures
        a == b,
{
    assert((if a & 0x8000 != 0 {
        (a << 1) ^ 0x1021
    } else {
        a << 1
    }) == (if b & 0x8000 != 0 {
        (b << 1) ^ 0x1021
    } else {
        b << 1
    }) ==> a == b) by (bit_vector);
}

proof fn lemma_crc_bits_injective(a: u16, b: u16, n: nat)
    requires
        crc_bits(a, n) == crc_bits(b, n),
    ensures
        a == b,
    decreases n,
{
    if n > 0 {
        let m = (n - 1) as nat;
        lemma_crc_bit_injective(crc_bits(a, m), crc_bits(b, m));
        lemma_crc_bits_injective(a, b, m);
    }
}

proof fn lemma_crc_byte_injective(c: u16, d: u16, x: u8, y: u8)
    requires
        crc_byte(c, x) == crc_byte(d, y),
        c == d || x == y,
    ensures
        c == d,
        x == y,
{
    lemma_crc_bits_injective(c ^ ((x as u16) << 8), d ^ ((y as u16) << 8), 8);
    assert(c ^ ((x as u16) << 8) == d ^ ((y as u16) << 8) && (c == d || x == y) ==> c == d && x
        == y) by (bit_vector);
}

/// Changing a single byte, be it in one bit or in all eight, changes the checksum.
pub proof fn crc_notices_a_changed_byte(a: Seq<u8>, b: Seq<u8>, i: int)
    requires
        a.len() == b.len(),
        0 <= i < a.len(),
        a[i] != b[i],
        forall|j: int| 0 <= j < a.len() && j != i ==> a[j] == b[j],
    ensures
        crc16_of(a) != crc16_of(b),
    decreases a.len(),
{
    let (a2, b2) = (a.drop_last(), b.drop_last());
    if i == a.len() - 1 {
        assert(a2 =~= b2);
        if crc16_of(a) == crc16_of(b) {
            lemma_crc_byte_injective(crc16_of(a2), crc16_of(b2), a.last(), b.last());
        }
    } else {
        crc_notices_a_changed_byte(a2, b2, i);
        if crc16_of(a) == crc16_of(b) {
            lemma_crc_byte_injective(crc16_of(a2), crc16_of(b2), a.last(), b.last());
        }
    }
}

/// A block that ends in its own checksum no longer does once a single byte of it has changed.
pub proof fn a_changed_byte_breaks_the_seal(good: Seq<u8>, bad: Seq<u8>, n: int, i: int)
    requires
        0 <= n,
        good.len() == n + 2,
        bad.len() == n + 2,
        le16(good, n) == crc16_of(good.take(n)),
        0 <= i < n + 2,
        bad[i] != good[i],
        forall|j: int| 0 <= j < n + 2 && j != i ==> bad[j] == good[j],
    ensures
        le16(bad, n) != crc16_of(bad.take(n)),
{
    if i < n {
        crc_notices_a_changed_byte(bad.take(n), good.take(n), i);
    } else {
        assert(bad.take(n) =~= good.take(n));
    }
}

/// The checksum starts from all ones. Each bit of the data, the highest of a byte first, shifts it to
/// the left, and takes the polynomial x^12 + x^5 + 1 into it where the bit that drops out and the bit
/// of the data differ.
pub proof fn the_checksum_goes_bit_by_bit(data: Seq<u8>, b: u8, crc: u16)
    ensures
        crc16_of(Seq::empty()) == 65_535,
        crc16_of(data.push(b)) == crc_bits(crc16_of(data) ^ ((b as u16) << 8), 8),
        crc_bits(crc, 0) == crc,
        forall|n: nat| #[trigger]
            crc_bits(crc, n + 1) == {
                let c = crc_bits(crc, n);
                if c >= 32_768 {
                    ((2 * c - 65_536) as u16) ^ 4_129
                } else {
                    (2 * c) as u16
                }
            },
{
    assert(data.push(b).drop_last() =~= data);
    assert forall|n: nat| #[trigger] crc_bits(crc, n + 1) == {
        let c = crc_bits(crc, n);
        if c >= 32_768 {
            ((2 * c - 65_536) as u16) ^ 4_129
        } else {
            (2 * c) as u16
        }
    } by {
        let c = crc_bits(crc, n);
        assert((c & 0x8000 != 0) == (c >= 32_768)) by (bit_vector);
        assert(c < 32_768 ==> c << 1 == 2 * c) by (bit_vector);
        assert(c >= 32_768 ==> c << 1 == 2 * (c - 32_768)) by (bit_vector);
    }
}

/// Numbers lie low byte first: each byte is worth 256 times the one before it.
pub proof fn numbers_lie_low_byte_first(x: u16, y: u32, z: u64)
    ensures
        bytes16(x).len() == 2,
        bytes16(x)[0] + 256 * bytes16(x)[1] == x,
        bytes32(y).len() == 4,
        bytes32(y)[0] + 256 * (bytes32(y)[1] + 256 * (bytes32(y)[2] + 256 * bytes32(y)[3])) == y,
        bytes64(z).len() == 8,
        bytes64(z).take(4) == bytes32((z % 4_294_967_296) as u32),
        bytes64(z).skip(4) == bytes32((z / 4_294_967_296) as u32),
{
    assert(bytes64(z).take(4) =~= bytes32((z % 4_294_967_296) as u32));
    assert(bytes64(z).skip(4) =~= bytes32((z / 4_294_967_296) as u32));
}

} // verus!
