//! The primitives of the wire: little-endian and variable-length integers,
//! and a cursor over received bytes.

use crate::errors::{Error, ErrorKind};
use vstd::prelude::*;

verus! {

// ---------------------------------------------------------------------------
// Little-endian integers

/// `256` to the power `n`.
pub open spec fn pow256(n: nat) -> nat
    decreases n,
{
    if n == 0 {
        1
    } else {
        256 * pow256((n - 1) as nat)
    }
}

/// The `width` least significant bytes of `v`, least significant first.
pub open spec fn le_bytes(v: nat, width: nat) -> Seq<u8>
    decreases width,
{
    if width == 0 {
        Seq::empty()
    } else {
        seq![(v % 256) as u8] + le_bytes(v / 256, (width - 1) as nat)
    }
}

/// The number whose bytes, least significant first, are `b`.
pub open spec fn le_value(b: Seq<u8>) -> nat
    decreases b.len(),
{
    if b.len() == 0 {
        0
    } else {
        b[0] as nat + 256 * le_value(b.drop_first())
    }
}

/// The two's complement of `x` in `width` bytes, as a natural number.
pub open spec fn twos(x: int, width: nat) -> nat {
    if x >= 0 {
        x as nat
    } else {
        (x + pow256(width)) as nat
    }
}

/// The signed number whose two's complement in `width` bytes is `u`.
pub open spec fn untwos(u: nat, width: nat) -> int {
    if 2 * u < pow256(width) {
        u as int
    } else {
        u - pow256(width)
    }
}

/// The powers of `256` at the widths of machine integers.
pub proof fn lemma_pow256_values()
    ensures
        pow256(0) == 1,
        pow256(1) == 0x100,
        pow256(2) == 0x1_0000,
        pow256(4) == 0x1_0000_0000,
        pow256(8) == 0x1_0000_0000_0000_0000,
        pow256(16) == 0x1_0000_0000_0000_0000_0000_0000_0000_0000,
{
    reveal_with_fuel(pow256, 17);
}

/// A power of `256` is at least one.
pub proof fn lemma_pow256_positive(n: nat)
    ensures
        pow256(n) >= 1,
    decreases n,
{
    if n > 0 {
        lemma_pow256_positive((n - 1) as nat);
    }
}

/// The powers of `256` grow with the exponent.
pub proof fn lemma_pow256_monotonic(a: nat, b: nat)
    requires
        a <= b,
    ensures
        pow256(a) <= pow256(b),
    decreases b,
{
    if a < b {
        lemma_pow256_monotonic(a, (b - 1) as nat);
        lemma_pow256_positive((b - 1) as nat);
    }
}

/// A number written in `width` bytes takes `width` bytes.
pub proof fn lemma_le_bytes_len(v: nat, width: nat)
    ensures
        le_bytes(v, width).len() == width,
    decreases width,
{
    if width > 0 {
        lemma_le_bytes_len(v / 256, (width - 1) as nat);
    }
}

/// The number of some bytes is less than `256` to the power of their count.
pub proof fn lemma_le_value_bound(b: Seq<u8>)
    ensures
        le_value(b) < pow256(b.len()),
    decreases b.len(),
{
    if b.len() > 0 {
        lemma_le_value_bound(b.drop_first());
    }
}

/// The bytes of a number that fits give the number back.
pub proof fn lemma_le_value_of_bytes(v: nat, width: nat)
    requires
        v < pow256(width),
    ensures
        le_value(le_bytes(v, width)) == v,
    decreases width,
{
    if width > 0 {
        let rest = le_bytes(v / 256, (width - 1) as nat);
        let all = le_bytes(v, width);
        assert(all.drop_first() =~= rest);
        assert(v / 256 < pow256((width - 1) as nat)) by (nonlinear_arith)
            requires
                v < 256 * pow256((width - 1) as nat),
        ;
        lemma_le_value_of_bytes(v / 256, (width - 1) as nat);
    }
}

/// The number of two byte runs, one after the other.
pub proof fn lemma_le_value_concat(a: Seq<u8>, b: Seq<u8>)
    ensures
        le_value(a + b) == le_value(a) + pow256(a.len()) * le_value(b),
    decreases a.len(),
{
    if a.len() == 0 {
        assert(a + b =~= b);
    } else {
        assert((a + b).drop_first() =~= a.drop_first() + b);
        lemma_le_value_concat(a.drop_first(), b);
        let p = pow256((a.len() - 1) as nat);
        let x = le_value(a.drop_first());
        let y = le_value(b);
        assert((a + b)[0] == a[0]);
        assert(pow256(a.len()) == 256 * p);
        assert(256 * (x + p * y) == 256 * x + (256 * p) * y) by (nonlinear_arith);
    }
}

/// A signed number that fits `width` bytes is the number of its two's
/// complement.
pub proof fn lemma_twos_round_trip(x: int, width: nat)
    requires
        -(pow256(width) as int) <= 2 * x < pow256(width),
    ensures
        twos(x, width) < pow256(width),
        untwos(twos(x, width), width) == x,
{
}

/// Whether `width` is the number of bytes of a machine integer.
pub open spec fn machine_width(width: nat) -> bool {
    width == 1 || width == 2 || width == 4 || width == 8 || width == 16
}

/// The two's complement of `x` in `width` bytes.
pub fn twos_of(x: i128, width: usize) -> (u: u128)
    requires
        machine_width(width as nat),
        -(pow256(width as nat) as int) <= 2 * x < pow256(width as nat),
    ensures
        u as nat == twos(x as int, width as nat),
        (u as nat) < pow256(width as nat),
{
    proof {
        lemma_pow256_values();
    }
    if x >= 0 {
        x as u128
    } else if width == 16 {
        ((x - i128::MIN) as u128) + 0x8000_0000_0000_0000_0000_0000_0000_0000u128
    } else {
        let modulus: i128 = if width == 1 {
            0x100
        } else if width == 2 {
            0x1_0000
        } else if width == 4 {
            0x1_0000_0000
        } else {
            0x1_0000_0000_0000_0000
        };
        (x + modulus) as u128
    }
}

/// The signed number whose two's complement in `width` bytes is `u`.
pub fn untwos_of(u: u128, width: usize) -> (x: i128)
    requires
        machine_width(width as nat),
        (u as nat) < pow256(width as nat),
    ensures
        x as int == untwos(u as nat, width as nat),
        -(pow256(width as nat) as int) <= 2 * x < pow256(width as nat),
{
    proof {
        lemma_pow256_values();
    }
    if width == 16 {
        if u < 0x8000_0000_0000_0000_0000_0000_0000_0000u128 {
            u as i128
        } else {
            ((u - 0x8000_0000_0000_0000_0000_0000_0000_0000u128) as i128) + i128::MIN
        }
    } else {
        let modulus: i128 = if width == 1 {
            0x100
        } else if width == 2 {
            0x1_0000
        } else if width == 4 {
            0x1_0000_0000
        } else {
            0x1_0000_0000_0000_0000
        };
        if 2 * (u as i128) < modulus {
            u as i128
        } else {
            (u as i128) - modulus
        }
    }
}

/// Appends the `width` low bytes of `v` to `out`, least significant first.
pub fn put_uint(out: &mut Vec<u8>, v: u128, width: usize)
    ensures
        final(out)@ == old(out)@ + le_bytes(v as nat, width as nat),
{
    let mut x: u128 = v;
    let mut i: usize = 0;
    assert(out@ + le_bytes(x as nat, width as nat) =~= old(out)@ + le_bytes(
        v as nat,
        width as nat,
    ));
    while i < width
        invariant
            i <= width,
            out@ + le_bytes(x as nat, (width - i) as nat) == old(out)@ + le_bytes(
                v as nat,
                width as nat,
            ),
        decreases width - i,
    {
        let ghost before = out@;
        let b: u8 = (x % 256) as u8;
        out.push(b);
        assert(before + le_bytes(x as nat, (width - i) as nat) =~= out@ + le_bytes(
            (x / 256) as nat,
            (width - i - 1) as nat,
        ));
        x = x / 256;
        i += 1;
    }
    assert(out@ + le_bytes(x as nat, 0) =~= out@);
}

/// Appends the bytes of `bytes` to `out`.
pub fn put_bytes(out: &mut Vec<u8>, bytes: &[u8])
    ensures
        final(out)@ == old(out)@ + bytes@,
{
    let mut i: usize = 0;
    assert(out@ =~= old(out)@ + bytes@.take(0));
    while i < bytes.len()
        invariant
            i <= bytes.len(),
            out@ == old(out)@ + bytes@.take(i as int),
        decreases bytes.len() - i,
    {
        out.push(bytes[i]);
        assert(bytes@.take(i + 1) =~= bytes@.take(i as int).push(bytes[i as int]));
        i += 1;
    }
    assert(bytes@.take(bytes.len() as int) =~= bytes@);
}

/// Appends `n` zero bytes to `out`.
pub fn put_zeros(out: &mut Vec<u8>, n: usize)
    ensures
        final(out)@ == old(out)@ + crate::values::zeros(n as nat),
{
    let mut i: usize = 0;
    assert(out@ =~= old(out)@ + crate::values::zeros(0));
    while i < n
        invariant
            i <= n,
            out@ == old(out)@ + crate::values::zeros(i as nat),
        decreases n - i,
    {
        out.push(0u8);
        assert(out@ =~= old(out)@ + crate::values::zeros((i + 1) as nat));
        i += 1;
    }
}

/// The number held in `data[pos..pos + width]`, least significant byte first.
pub fn get_uint(data: &[u8], pos: usize, width: usize) -> (v: u128)
    requires
        width <= 16,
        pos + width <= data.len(),
    ensures
        v as nat == le_value(data@.subrange(pos as int, pos + width)),
        (v as nat) < pow256(width as nat),
{
    let mut acc: u128 = 0;
    let mut i: usize = width;
    assert(data@.subrange(pos + width, pos + width) =~= Seq::<u8>::empty());
    proof {
        lemma_pow256_values();
    }
    while i > 0
        invariant
            i <= width <= 16,
            pos + width <= data.len(),
            acc as nat == le_value(data@.subrange(pos + i, pos + width)),
            (acc as nat) < pow256((width - i) as nat),
        decreases i,
    {
        let ghost tail = data@.subrange(pos + i, pos + width);
        i -= 1;
        let ghost run = data@.subrange(pos + i, pos + width);
        let b = data[pos + i];
        proof {
            assert(run.drop_first() =~= tail);
            assert(run[0] == b);
            lemma_pow256_monotonic((width - i) as nat, 16);
            lemma_pow256_values();
            assert(acc * 256 + 255 < pow256((width - i) as nat)) by (nonlinear_arith)
                requires
                    (acc as nat) < pow256((width - i - 1) as nat),
                    pow256((width - i) as nat) == 256 * pow256((width - i - 1) as nat),
            ;
        }
        acc = acc * 256 + b as u128;
    }
    acc
}

// ---------------------------------------------------------------------------
// Variable-length integers

/// `128` to the power `n`.
pub open spec fn pow128(n: nat) -> nat
    decreases n,
{
    if n == 0 {
        1
    } else {
        128 * pow128((n - 1) as nat)
    }
}

/// The unsigned LEB128 form of `v`: seven bits to a byte, least significant
/// group first, the high bit set on every byte but the last.
pub open spec fn varint_bytes(v: nat) -> Seq<u8>
    decreases v,
{
    if v < 128 {
        seq![v as u8]
    } else {
        seq![(v % 128 + 128) as u8] + varint_bytes(v / 128)
    }
}

/// The number and the end of the LEB128 run that starts at `pos`, of which
/// `groups` groups may still come. `None` where the data end, or the run does
/// not, before then.
pub open spec fn varint_at(data: Seq<u8>, pos: int, groups: nat) -> Option<(nat, int)>
    decreases groups,
{
    if groups == 0 || pos < 0 || pos >= data.len() {
        None
    } else if data[pos] < 128 {
        Some((data[pos] as nat, pos + 1))
    } else {
        match varint_at(data, pos + 1, (groups - 1) as nat) {
            Some((rest, end)) => Some(((data[pos] - 128) as nat + 128 * rest, end)),
            None => None,
        }
    }
}

/// The 64-bit number in LEB128 form at `pos`, and where it ends. `None` where
/// the run is cut short, is longer than ten bytes, or does not fit 64 bits.
pub open spec fn parse_varint(data: Seq<u8>, pos: int) -> Option<(u64, int)> {
    match varint_at(data, pos, 10) {
        Some((v, end)) => if v <= u64::MAX {
            Some((v as u64, end))
        } else {
            None
        },
        None => None,
    }
}

/// Appends the LEB128 form of `v` to `out`.
pub fn put_varint(out: &mut Vec<u8>, v: u64)
    ensures
        final(out)@ == old(out)@ + varint_bytes(v as nat),
{
    let mut x: u64 = v;
    assert(out@ + varint_bytes(x as nat) =~= old(out)@ + varint_bytes(v as nat));
    while x >= 128
        invariant
            out@ + varint_bytes(x as nat) == old(out)@ + varint_bytes(v as nat),
        decreases x,
    {
        let ghost before = out@;
        out.push((x % 128 + 128) as u8);
        assert(before + varint_bytes(x as nat) =~= out@ + varint_bytes((x / 128) as nat));
        x = x / 128;
    }
    let ghost before = out@;
    out.push(x as u8);
    assert(before + varint_bytes(x as nat) =~= out@);
}

// ---------------------------------------------------------------------------
// Reading

/// A cursor over received bytes.
pub struct Reader<'a> {
    data: &'a [u8],
    pos: usize,
}

pub(crate) fn protocol_error(message: &str) -> (e: Error)
    ensures
        e.kind == ErrorKind::ProtocolError,
        e.message@ == message@,
{
    Error::new(ErrorKind::ProtocolError, message)
}

impl<'a> Reader<'a> {
    /// The bytes under the cursor, read and unread.
    pub closed spec fn data(&self) -> Seq<u8> {
        self.data@
    }

    /// How many bytes have been read.
    pub closed spec fn pos(&self) -> int {
        self.pos as int
    }

    /// The cursor stands within its bytes.
    pub open spec fn wf(&self) -> bool {
        0 <= self.pos() <= self.data().len()
    }

    /// A cursor at the start of `data`.
    pub fn new(data: &'a [u8]) -> (r: Reader<'a>)
        ensures
            r.wf(),
            r.data() == data@,
            r.pos() == 0,
    {
        Reader { data, pos: 0 }
    }

    /// How many bytes have been read.
    pub fn position(&self) -> (p: usize)
        requires
            self.wf(),
        ensures
            p == self.pos(),
            p <= self.data().len(),
    {
        self.pos
    }

    /// How many bytes are left.
    pub fn remaining(&self) -> (n: usize)
        requires
            self.wf(),
        ensures
            n == self.data().len() - self.pos(),
    {
        self.data.len() - self.pos
    }

    /// Reads `width` bytes as a number, least significant byte first.
    pub fn read_uint(&mut self, width: usize) -> (r: Result<u128, Error>)
        requires
            old(self).wf(),
            width <= 16,
        ensures
            final(self).wf(),
            final(self).data() == old(self).data(),
            old(self).pos() + width <= old(self).data().len() <==> r is Ok,
            r matches Ok(v) ==> {
                &&& final(self).pos() == old(self).pos() + width
                &&& v as nat == le_value(
                    old(self).data().subrange(old(self).pos(), old(self).pos() + width),
                )
                &&& (v as nat) < pow256(width as nat)
            },
            r matches Err(e) ==> e.kind == ErrorKind::ProtocolError,
    {
        if width > self.data.len() - self.pos {
            return Err(protocol_error("unexpected end of data"));
        }
        let v = get_uint(self.data, self.pos, width);
        self.pos = self.pos + width;
        Ok(v)
    }

    /// Reads `n` bytes.
    pub fn read_bytes(&mut self, n: usize) -> (r: Result<Vec<u8>, Error>)
        requires
            old(self).wf(),
        ensures
            final(self).wf(),
            final(self).data() == old(self).data(),
            old(self).pos() + n <= old(self).data().len() <==> r is Ok,
            r matches Ok(v) ==> {
                &&& final(self).pos() == old(self).pos() + n
                &&& v@ == old(self).data().subrange(old(self).pos(), old(self).pos() + n)
            },
            r matches Err(e) ==> e.kind == ErrorKind::ProtocolError,
    {
        if n > self.data.len() - self.pos {
            return Err(protocol_error("unexpected end of data"));
        }
        let mut out: Vec<u8> = Vec::new();
        let start = self.pos;
        let mut i: usize = 0;
        assert(out@ =~= self.data@.subrange(start as int, start as int));
        while i < n
            invariant
                i <= n,
                start + n <= self.data@.len(),
                self.data@.len() <= usize::MAX,
                out@ == self.data@.subrange(start as int, start + i),
            decreases n - i,
        {
            out.push(self.data[start + i]);
            assert(self.data@.subrange(start as int, start + i + 1) =~= self.data@.subrange(
                start as int,
                start + i,
            ).push(self.data@[start + i]));
            i += 1;
        }
        self.pos = start + n;
        Ok(out)
    }

    /// Reads a 64-bit number in LEB128 form.
    pub fn read_varint(&mut self) -> (r: Result<u64, Error>)
        requires
            old(self).wf(),
        ensures
            final(self).wf(),
            final(self).data() == old(self).data(),
            match parse_varint(old(self).data(), old(self).pos()) {
                Some((v, end)) => r == Ok::<u64, Error>(v) && final(self).pos() == end,
                None => r matches Err(e) && e.kind == ErrorKind::ProtocolError,
            },
    {
        let ghost data = self.data@;
        let ghost start = self.pos as int;
        let mut acc: u128 = 0;
        let mut scale: u128 = 1;
        let mut k: usize = 0;
        while k < 10
            invariant
                k <= 10,
                self.wf(),
                self.data@ == data,
                data == old(self).data(),
                start == old(self).pos(),
                self.pos == start + k,
                scale as nat == pow128(k as nat),
                (acc as nat) < pow128(k as nat),
                varint_at(data, start, 10) == match varint_at(
                    data,
                    start + k,
                    (10 - k) as nat,
                ) {
                    Some((rest, end)) => Some((acc as nat + scale as nat * rest, end)),
                    None => None::<(nat, int)>,
                },
            decreases 10 - k,
        {
            proof {
                lemma_pow128_bound(k as nat);
                lemma_pow128_bound((k + 1) as nat);
            }
            if self.pos >= self.data.len() {
                return Err(protocol_error("truncated varint"));
            }
            let b = self.data[self.pos];
            self.pos = self.pos + 1;
            assert(scale * (b as u128) <= scale * 256) by (nonlinear_arith)
                requires
                    b < 256,
            ;
            if b < 128 {
                let total: u128 = acc + scale * (b as u128);
                if total > 0xffff_ffff_ffff_ffff {
                    return Err(protocol_error("varint does not fit 64 bits"));
                }
                return Ok(total as u64);
            }
            let ghost next = varint_at(data, start + k + 1, (10 - k - 1) as nat);
            assert(scale * ((b - 128) as u128) + acc < scale * 128) by (nonlinear_arith)
                requires
                    acc < scale,
                    b - 128 < 128,
                    b >= 128,
            ;
            proof {
                if next is Some {
                    let (rest, _) = next->0;
                    let a = acc as nat;
                    let s = scale as nat;
                    let d = (b - 128) as nat;
                    assert(a + s * (d + 128 * rest) == (a + s * d) + (s * 128) * rest)
                        by (nonlinear_arith);
                }
            }
            acc = acc + scale * ((b - 128) as u128);
            scale = scale * 128;
            k += 1;
        }
        Err(protocol_error("varint is too long"))
    }
}

proof fn lemma_pow128_bound(n: nat)
    requires
        n <= 11,
    ensures
        pow128(n) <= 0x8000_0000_0000_0000_0000,
        pow128(n) >= 1,
        n > 0 ==> pow128(n) == 128 * pow128((n - 1) as nat),
{
    reveal_with_fuel(pow128, 12);
}

} // verus!
