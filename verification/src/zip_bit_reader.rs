//! A reader of single bits from a stream of bytes, least significant bit first.

use vstd::prelude::*;
use vstd::arithmetic::div_mod::{
    lemma_basic_div, lemma_breakdown, lemma_div_denominator, lemma_div_multiples_vanish,
    lemma_div_multiples_vanish_fancy, lemma_hoist_over_denominator, lemma_mod_bound,
    lemma_mod_multiples_vanish,
};
use vstd::arithmetic::power2::{lemma_pow2_adds, lemma_pow2_pos, lemma2_to64, pow2};
use vstd::bits::{
    lemma_u32_pow2_no_overflow, lemma_u32_shl_is_mul, lemma_u32_shr_is_div,
    lemma_u64_low_bits_mask_is_mod, lemma_u64_pow2_no_overflow, lemma_u64_shl_is_mul,
    lemma_u64_shr_is_div, low_bits_mask,
};
use crate::byte_reader::{ByteReader, le_at, le_value, lemma_le_value_bound, lemma_le_value_split};
use crate::preflate_error::PreflateError;

verus! {

/// The state of a bit reader as a mathematical value.
pub struct BitReaderModel {
    pub data: Seq<u8>,
    /// Place of the next byte that goes into the buffer.
    pub pos: int,
    /// Number of bytes that may still go into the buffer.
    pub max_readable_bytes: i64,
    /// Number of bits in the buffer.
    pub count: u32,
    /// The bits that were read from the bytes and not handed out yet,
    /// the next one lowest.
    pub buffer: u64,
    /// Place of the first byte of the reader.
    pub initial: i64,
}

/// The lowest `n` bits of `buffer`.
pub open spec fn low_bits(buffer: u64, n: u32) -> u64 {
    buffer & !(u64::MAX << (n as u64))
}

/// The `n` bits of `data` from the bit `bit` on as a number, the first
/// bit lowest. The bits of a byte are counted from its lowest.
pub open spec fn bits_at(data: Seq<u8>, bit: int, n: nat) -> nat {
    (le_value(data, data.len()) / pow2(bit as nat)) % pow2(n)
}

/// `limit` less `n`, or the lowest number there is.
pub open spec fn count_down(limit: i64, n: i64) -> i64 {
    if limit - n < i64::MIN {
        i64::MIN
    } else {
        (limit - n) as i64
    }
}

impl BitReaderModel {
    /// The buffer holds the bits of the bytes before the place of the next
    /// byte that were not handed out yet.
    pub open spec fn wf(self) -> bool {
        &&& self.count <= 64
        &&& self.count <= 8 * self.pos
        &&& self.initial >= 0
        &&& 0 <= self.pos
        &&& self.count > 0 ==> self.pos <= self.data.len() && self.buffer == le_value(
            self.data,
            self.pos as nat,
        ) / pow2((8 * self.pos - self.count) as nat)
    }

    /// Number of the next bit, counted from the first bit of the bytes.
    pub open spec fn bit_position(self) -> int {
        8 * self.pos - self.count
    }

    /// Number of bytes from the place of the next byte to the end.
    pub open spec fn available(self) -> int {
        if self.pos <= self.data.len() {
            self.data.len() - self.pos
        } else {
            0
        }
    }

    /// The state after `n` bytes went into the empty buffer.
    pub open spec fn load(self, n: nat) -> Result<BitReaderModel, PreflateError> {
        if self.available() < n {
            Err(PreflateError::EndOfStream)
        } else {
            Ok(
                BitReaderModel {
                    buffer: le_at(self.data, self.pos as int, n) as u64,
                    count: (8 * n) as u32,
                    pos: self.pos + n,
                    max_readable_bytes: count_down(self.max_readable_bytes, n as i64),
                    ..self
                },
            )
        }
    }

    /// The state with at least one bit in the buffer: an empty buffer
    /// takes as many bytes as may be read, eight at most and in a power of two.
    pub open spec fn fill(self) -> Result<BitReaderModel, PreflateError> {
        if self.count != 0 {
            Ok(self)
        } else if self.max_readable_bytes >= 8 {
            self.load(8)
        } else if self.max_readable_bytes >= 4 {
            self.load(4)
        } else if self.max_readable_bytes >= 2 {
            self.load(2)
        } else if self.max_readable_bytes == 0 {
            Err(PreflateError::ReadPastEnd)
        } else {
            self.load(1)
        }
    }

    /// The bits from `added` up to `cbit` of a number, read into `wret`,
    /// and the state after them.
    pub open spec fn get_from(self, cbit: u32, added: u32, wret: u32) -> Result<
        (u32, BitReaderModel),
        PreflateError,
    >
        decreases cbit - added,
    {
        if added >= cbit {
            Ok((wret, self))
        } else {
            match self.fill() {
                Err(e) => Err(e),
                Ok(filled) => {
                    let needed = (cbit - added) as u32;
                    let taken = if needed <= filled.count {
                        needed
                    } else {
                        filled.count
                    };
                    if taken == 0 {
                        Err(PreflateError::ReadPastEnd)
                    } else {
                        (BitReaderModel {
                            buffer: filled.buffer >> (taken as u64),
                            count: (filled.count - taken) as u32,
                            ..filled
                        }).get_from(
                            cbit,
                            (added + taken) as u32,
                            wret | ((low_bits(filled.buffer, taken) << (added as u64)) as u32),
                        )
                    }
                },
            }
        }
    }

    /// The next `cbit` bits as a number, the first bit lowest, and the state after them.
    pub open spec fn get(self, cbit: u32) -> Result<(u32, BitReaderModel), PreflateError> {
        if cbit == 0 {
            Ok((0, self))
        } else if cbit > 32 {
            Err(PreflateError::TooManyBits)
        } else {
            self.get_from(cbit, 0, 0)
        }
    }

    /// Number of bytes of the buffer that were not begun yet.
    pub open spec fn whole_bytes_buffered(self) -> int {
        self.count as int / 8
    }

    /// Number of bytes that the buffer holds a bit of.
    pub open spec fn bytes_buffered(self) -> int {
        if self.count == 0 {
            0
        } else {
            1 + (self.count - 1) / 8
        }
    }

    /// Place of the byte that holds the next bit.
    pub open spec fn position(self) -> int {
        self.pos - self.bytes_buffered()
    }

    /// Number of the next bit in its byte, counted from 1; 8 at a byte boundary.
    pub open spec fn bit_in_byte(self) -> u32 {
        (8 - self.count % 8) as u32
    }
}

/// The bits of the first bytes are the bits of all bytes.
pub proof fn lemma_prefix_bits(data: Seq<u8>, pos: nat, bit: nat, n: nat)
    requires
        pos <= data.len(),
        bit + n <= 8 * pos,
    ensures
        (le_value(data, pos) / pow2(bit)) % pow2(n) == bits_at(data, bit as int, n),
{
    let all = le_value(data, data.len());
    let first = le_value(data, pos);
    let rest = le_at(data, pos as int, (data.len() - pos) as nat);
    lemma_le_value_split(data, pos, (data.len() - pos) as nat);
    let above = (8 * pos - bit - n) as nat;
    lemma_pow2_adds(bit, (n + above) as nat);
    lemma_pow2_adds(n, above);
    lemma_pow2_pos(bit);
    lemma_pow2_pos(n);
    let pb = pow2(bit) as int;
    let pn = pow2(n) as int;
    let high = pow2(above) * rest;
    assert(pow2(8 * pos) * rest == (pn * high) * pb) by (nonlinear_arith)
        requires
            pow2(8 * pos) == pb * (pn * pow2(above)),
            high == pow2(above) * rest,
    ;
    lemma_hoist_over_denominator(first as int, pn * high, pb as nat);
    assert(all as int / pb == first as int / pb + pn * high);
    lemma_mod_multiples_vanish(high as int, first as int / pb, pn);
}

/// The complement of the bits from bit `n` on is the number with the
/// lowest `n` bits set.
pub proof fn lemma_low_bits(buffer: u64, n: u32)
    requires
        n < 64,
    ensures
        low_bits(buffer, n) == buffer as nat % pow2(n as nat),
        low_bits(buffer, n) < pow2(n as nat),
{
    let t: u64 = n as u64;
    lemma_u64_pow2_no_overflow(n as nat);
    lemma_pow2_pos(n as nat);
    lemma_u64_shl_is_mul(1, t);
    let one: u64 = 1u64 << t;
    let mask: u64 = !(u64::MAX << t);
    assert(mask + 1 == one) by (bit_vector)
        requires
            t < 64,
            one == 1u64 << t,
            mask == !(u64::MAX << t),
    ;
    assert(low_bits_mask(n as nat) as u64 == mask);
    lemma_u64_low_bits_mask_is_mod(buffer, n as nat);
    lemma_mod_bound(buffer as int, pow2(n as nat) as int);
}

/// Bits that do not overlap are added where they are combined.
pub proof fn lemma_or_is_add(w: u32, s: u32, a: u32)
    requires
        a < 32,
        w >> a == 0,
        (s >> a) << a == s,
    ensures
        w | s == w + s,
{
    assert(w | s == w + s) by (bit_vector)
        requires
            a < 32,
            w >> a == 0,
            (s >> a) << a == s,
    ;
}

impl BitReaderModel {
    /// The state with `taken` bits less in the buffer.
    pub open spec fn without(self, taken: u32) -> BitReaderModel {
        BitReaderModel {
            buffer: self.buffer >> (taken as u64),
            count: (self.count - taken) as u32,
            ..self
        }
    }
}

/// The bits that are taken from the buffer are the next bits of the
/// bytes, and go above the bits that were taken before.
pub proof fn lemma_take_bits(m: BitReaderModel, taken: u32, added: u32, wret: u32, start: int)
    requires
        m.wf(),
        0 < taken <= m.count,
        added + taken <= 32,
        0 <= start,
        start + added == m.bit_position(),
        wret == bits_at(m.data, start, added as nat),
    ensures
        wret | ((low_bits(m.buffer, taken) << (added as u64)) as u32) == bits_at(
            m.data,
            start,
            (added + taken) as nat,
        ),
        m.without(taken).wf(),
        m.without(taken).bit_position() == m.bit_position() + taken,
{
    lemma2_to64();
    let all = le_value(m.data, m.data.len()) as int;
    let first = le_value(m.data, m.pos as nat) as int;
    let a = added as nat;
    let t = taken as nat;
    let p = m.bit_position() as nat;
    let pa = pow2(a) as int;
    let pt = pow2(t) as int;
    let pp = pow2(p) as int;
    let ps = pow2(start as nat) as int;
    lemma_pow2_pos(a);
    lemma_pow2_pos(t);
    lemma_pow2_pos(p);
    lemma_pow2_pos(start as nat);
    lemma_pow2_adds(start as nat, a);
    lemma_pow2_adds(a, t);
    lemma_pow2_adds(p, t);
    lemma_u32_pow2_no_overflow(a);
    lemma_u64_pow2_no_overflow(t);
    if a + t < 32 {
        lemma_u32_pow2_no_overflow(a + t);
    }
    // What is taken are the next bits of the bytes.
    let low = low_bits(m.buffer, taken);
    lemma_low_bits(m.buffer, taken);
    lemma_prefix_bits(m.data, m.pos as nat, p, t);
    assert(low as int == (all / pp) % pt);
    // They are shifted above the bits that were taken before.
    assert(low * pa < pa * pt) by (nonlinear_arith)
        requires
            0 <= low < pt,
            0 < pa,
    ;
    assert(pa * pt <= 0x1_0000_0000) by {
        if a + t < 32 {
        } else {
            assert(pow2(32) == 0x1_0000_0000);
        }
    }
    lemma_u64_shl_is_mul(low, added as u64);
    let shifted: u32 = (low << (added as u64)) as u32;
    assert(shifted == low * pa);
    let x = all / ps;
    lemma_mod_bound(x, pa);
    assert(wret < pa);
    lemma_u32_shr_is_div(wret, added);
    lemma_basic_div(wret as int, pa);
    lemma_u32_shr_is_div(shifted, added);
    assert(pa * (low as int) == low * pa) by (nonlinear_arith);
    lemma_div_multiples_vanish(low as int, pa);
    assert(shifted >> added == low);
    lemma_u32_shl_is_mul(low as u32, added);
    assert(((shifted >> added) << added) == shifted);
    lemma_or_is_add(wret, shifted, added);
    // Both together are the bits from the start on.
    lemma_div_denominator(all, ps, pa);
    assert(x / pa == all / pp);
    lemma_breakdown(x, pa, pt);
    assert(x % (pa * pt) == pa * ((x / pa) % pt) + x % pa);
    // What is left in the buffer are the bits after them.
    lemma_u64_shr_is_div(m.buffer, taken as u64);
    lemma_div_denominator(first, pp, pt);
}

/// The bytes that go into the empty buffer are the next bits.
pub proof fn lemma_load_wf(m: BitReaderModel, n: nat)
    requires
        m.wf(),
        m.count == 0,
        1 <= n <= 8,
        m.load(n) is Ok,
    ensures
        m.load(n).unwrap().wf(),
        m.load(n).unwrap().bit_position() == m.bit_position(),
        m.load(n).unwrap().data == m.data,
        m.load(n).unwrap().count == 8 * n,
        m.load(n).unwrap().initial == m.initial,
{
    lemma2_to64();
    let first = le_value(m.data, m.pos as nat);
    let next = le_at(m.data, m.pos as int, n);
    lemma_le_value_split(m.data, m.pos as nat, n);
    lemma_le_value_bound(m.data, m.pos as nat);
    lemma_le_value_bound(m.data.skip(m.pos as int), n);
    lemma_pow2_pos((8 * m.pos) as nat);
    lemma_div_multiples_vanish_fancy(next as int, first as int, pow2((8 * m.pos) as nat) as int);
    assert(pow2(8 * n) <= pow2(64)) by {
        if n < 8 {
            vstd::arithmetic::power2::lemma_pow2_strictly_increases(8 * n, 64);
        }
    }
}

/// A buffer that was filled holds at least one bit, and the next bit is
/// the one that it was before.
pub proof fn lemma_fill_wf(m: BitReaderModel)
    requires
        m.wf(),
        m.fill() is Ok,
    ensures
        m.fill().unwrap().wf(),
        m.fill().unwrap().count > 0,
        m.fill().unwrap().bit_position() == m.bit_position(),
        m.fill().unwrap().data == m.data,
        m.fill().unwrap().initial == m.initial,
{
    if m.count != 0 {
    } else if m.max_readable_bytes >= 8 {
        lemma_load_wf(m, 8);
    } else if m.max_readable_bytes >= 4 {
        lemma_load_wf(m, 4);
    } else if m.max_readable_bytes >= 2 {
        lemma_load_wf(m, 2);
    } else if m.max_readable_bytes == 0 {
    } else {
        lemma_load_wf(m, 1);
    }
}

/// The bits that are read are the next bits of the bytes, the first bit
/// lowest, and the reader stands behind them.
pub proof fn lemma_get_from_bits(m: BitReaderModel, cbit: u32, added: u32, wret: u32, start: int)
    requires
        m.wf(),
        added <= cbit <= 32,
        0 <= start,
        start + added == m.bit_position(),
        wret == bits_at(m.data, start, added as nat),
        m.get_from(cbit, added, wret) is Ok,
    ensures
        m.get_from(cbit, added, wret).unwrap().0 == bits_at(m.data, start, cbit as nat),
        m.get_from(cbit, added, wret).unwrap().1.wf(),
        m.get_from(cbit, added, wret).unwrap().1.bit_position() == start + cbit,
        m.get_from(cbit, added, wret).unwrap().1.data == m.data,
        m.get_from(cbit, added, wret).unwrap().1.initial == m.initial,
    decreases cbit - added,
{
    if added >= cbit {
    } else {
        lemma_fill_wf(m);
        let filled = m.fill().unwrap();
        let needed = (cbit - added) as u32;
        let taken = if needed <= filled.count {
            needed
        } else {
            filled.count
        };
        lemma_take_bits(filled, taken, added, wret, start);
        lemma_get_from_bits(
            filled.without(taken),
            cbit,
            (added + taken) as u32,
            wret | ((low_bits(filled.buffer, taken) << (added as u64)) as u32),
            start,
        );
    }
}

/// The bits that are read are the next bits of the bytes, the first bit
/// lowest, and the reader stands behind them.
pub proof fn lemma_get_bits(m: BitReaderModel, cbit: u32)
    requires
        m.wf(),
        m.get(cbit) is Ok,
    ensures
        m.get(cbit).unwrap().0 == bits_at(m.data, m.bit_position(), cbit as nat),
        m.get(cbit).unwrap().1.wf(),
        m.get(cbit).unwrap().1.bit_position() == m.bit_position() + cbit,
        m.get(cbit).unwrap().1.data == m.data,
{
    lemma2_to64();
    lemma_pow2_pos(m.bit_position() as nat);
    if cbit != 0 {
        lemma_get_from_bits(m, cbit, 0, 0, m.bit_position());
    }
}

/// Where no more bytes may be read than there are, the bits that can
/// still be read are those of the buffer and of the bytes that may be
/// read: bits are read as long as that many are left, and a read of more
/// comes to the end of what may be read.
pub proof fn lemma_get_from_succeeds(m: BitReaderModel, cbit: u32, added: u32, wret: u32)
    requires
        m.count <= 64,
        added <= cbit <= 32,
        0 <= m.max_readable_bytes <= m.available(),
    ensures
        cbit - added <= m.count + 8 * m.max_readable_bytes ==> m.get_from(cbit, added, wret) is Ok,
        cbit - added > m.count + 8 * m.max_readable_bytes ==> m.get_from(cbit, added, wret)
            == Err::<(u32, BitReaderModel), PreflateError>(PreflateError::ReadPastEnd),
    decreases cbit - added,
{
    if added < cbit {
        if m.fill() is Ok {
            let filled = m.fill().unwrap();
            let needed = (cbit - added) as u32;
            let taken = if needed <= filled.count {
                needed
            } else {
                filled.count
            };
            assert(filled.count + 8 * filled.max_readable_bytes == m.count + 8
                * m.max_readable_bytes);
            assert(filled.count > 0);
            let next = BitReaderModel {
                buffer: filled.buffer >> (taken as u64),
                count: (filled.count - taken) as u32,
                ..filled
            };
            lemma_get_from_succeeds(
                next,
                cbit,
                (added + taken) as u32,
                wret | ((low_bits(filled.buffer, taken) << (added as u64)) as u32),
            );
        }
    }
}

/// Where no more bytes may be read than there are, a read of up to 32
/// bits succeeds where the buffer and the bytes that may be read hold as
/// many bits, and only there.
pub proof fn lemma_get_succeeds(m: BitReaderModel, cbit: u32)
    requires
        m.count <= 64,
        0 <= m.max_readable_bytes <= m.available(),
    ensures
        m.get(cbit) is Ok <==> cbit <= 32 && cbit <= m.count + 8 * m.max_readable_bytes,
        cbit > 32 ==> m.get(cbit) == Err::<(u32, BitReaderModel), PreflateError>(
            PreflateError::TooManyBits,
        ),
        cbit <= 32 && cbit > m.count + 8 * m.max_readable_bytes ==> m.get(cbit) == Err::<
            (u32, BitReaderModel),
            PreflateError,
        >(PreflateError::ReadPastEnd),
{
    if 0 < cbit <= 32 {
        lemma_get_from_succeeds(m, cbit, 0, 0);
    }
}

/// A reader of bits over a reader of bytes.
pub struct ZipBitReader<'a> {
    pub binary_reader: ByteReader<'a>,
    /// Number of bytes that may still be read.
    pub max_readable_bytes: i64,
    pub count_of_bits_in_buffer: u32,
    pub return_value_buffer: u64,
    pub initial_position_in_binary_reader: i64,
}

impl<'a> View for ZipBitReader<'a> {
    type V = BitReaderModel;

    open spec fn view(&self) -> BitReaderModel {
        BitReaderModel {
            data: self.binary_reader.data@,
            pos: self.binary_reader.pos as int,
            max_readable_bytes: self.max_readable_bytes,
            count: self.count_of_bits_in_buffer,
            buffer: self.return_value_buffer,
            initial: self.initial_position_in_binary_reader,
        }
    }
}

impl<'a> ZipBitReader<'a> {
    /// A reader of bits that starts at the place of `binary_reader` and
    /// may read `max_readable_bytes` bytes.
    pub fn new(binary_reader: ByteReader<'a>, max_readable_bytes: i64) -> (r: Result<
        Self,
        PreflateError,
    >)
        ensures
            match r {
                Ok(reader) => {
                    &&& binary_reader.pos <= i64::MAX
                    &&& reader@.wf()
                    &&& reader@ == (BitReaderModel {
                        data: binary_reader.data@,
                        pos: binary_reader.pos as int,
                        max_readable_bytes,
                        count: 0,
                        buffer: 0,
                        initial: binary_reader.pos as i64,
                    })
                },
                Err(e) => binary_reader.pos > i64::MAX && e == PreflateError::InvalidSeek,
            },
    {
        let initial_position: u64 = binary_reader.stream_position();
        if initial_position > i64::MAX as u64 {
            return Err(PreflateError::InvalidSeek);
        }
        Ok(
            ZipBitReader {
                binary_reader,
                max_readable_bytes,
                count_of_bits_in_buffer: 0,
                return_value_buffer: 0,
                initial_position_in_binary_reader: initial_position as i64,
            },
        )
    }

    /// `limit` less `n`, or the lowest number there is.
    fn count_down(limit: i64, n: i64) -> (r: i64)
        requires
            0 <= n <= 8,
        ensures
            r == count_down(limit, n),
    {
        if limit < i64::MIN + n {
            i64::MIN
        } else {
            limit - n
        }
    }

    /// Makes sure that the buffer holds at least one bit.
    pub fn ensure_buffer(&mut self) -> (r: Result<(), PreflateError>)
        requires
            old(self)@.wf(),
        ensures
            match r {
                Ok(()) => old(self)@.fill() == Ok::<BitReaderModel, PreflateError>(final(self)@)
                    && final(self)@.wf() && final(self)@.count > 0 && final(self)@.bit_position()
                    == old(self)@.bit_position() && final(self)@.data == old(self)@.data,
                Err(e) => old(self)@.fill() == Err::<BitReaderModel, PreflateError>(e) && final(
                    self
                )@ == old(self)@,
            },
    {
        proof {
            if old(self)@.fill() is Ok {
                lemma_fill_wf(old(self)@);
            }
        }
        if self.count_of_bits_in_buffer == 0 {
            if self.max_readable_bytes >= 8 {
                self.return_value_buffer = self.binary_reader.read_u64()?;
                self.count_of_bits_in_buffer = 64;
                self.max_readable_bytes = Self::count_down(self.max_readable_bytes, 8);
                return Ok(());
            }
            if self.max_readable_bytes >= 4 {
                self.return_value_buffer = self.binary_reader.read_u32()? as u64;
                self.count_of_bits_in_buffer = 32;
                self.max_readable_bytes = Self::count_down(self.max_readable_bytes, 4);
                return Ok(());
            }
            if self.max_readable_bytes >= 2 {
                self.return_value_buffer = self.binary_reader.read_u16()? as u64;
                self.count_of_bits_in_buffer = 16;
                self.max_readable_bytes = Self::count_down(self.max_readable_bytes, 2);
                return Ok(());
            }
            if self.max_readable_bytes == 0 {
                return Err(PreflateError::ReadPastEnd);
            }
            let ghost data = self.binary_reader.data@;
            let ghost at = self.binary_reader.pos as int;
            self.return_value_buffer = self.binary_reader.read_u8()? as u64;
            proof {
                reveal_with_fuel(crate::byte_reader::le_value, 2);
                assert(data.skip(at)[0] == data[at]);
            }
            self.count_of_bits_in_buffer = 8;
            self.max_readable_bytes = Self::count_down(self.max_readable_bytes, 1);
        }
        Ok(())
    }

    /// Drops the bits that are left of the byte that was begun, and gives
    /// the bytes of the buffer that were not begun back to the reader.
    pub fn flush_buffer_to_byte_boundary(&mut self) -> (r: Result<(), PreflateError>)
        requires
            old(self)@.wf(),
        ensures
            r is Ok,
            final(self)@.wf(),
            final(self)@ == (BitReaderModel {
                count: 0,
                pos: old(self)@.pos - old(self)@.whole_bytes_buffered(),
                max_readable_bytes: if old(self)@.max_readable_bytes + old(
                    self
                )@.whole_bytes_buffered() > i64::MAX {
                    i64::MAX
                } else {
                    (old(self)@.max_readable_bytes + old(self)@.whole_bytes_buffered()) as i64
                },
                ..old(self)@
            }),
    {
        if self.count_of_bits_in_buffer == 0 {
            return Ok(());
        }
        let number_of_bytes_to_seek_back: u32 = self.count_of_bits_in_buffer / 8;
        self.binary_reader.seek_current(-(number_of_bytes_to_seek_back as i64))?;
        self.max_readable_bytes = if self.max_readable_bytes > i64::MAX
            - number_of_bytes_to_seek_back as i64 {
            i64::MAX
        } else {
            self.max_readable_bytes + number_of_bytes_to_seek_back as i64
        };
        self.count_of_bits_in_buffer = 0;
        Ok(())
    }

    /// The place of the byte that holds the next bit.
    pub fn position(&mut self) -> (r: Result<i64, PreflateError>)
        requires
            old(self)@.wf(),
        ensures
            final(self)@ == old(self)@,
            match r {
                Ok(p) => p == old(self)@.position() && p == old(self)@.bit_position() / 8,
                Err(e) => old(self)@.position() > i64::MAX && e == PreflateError::InvalidSeek,
            },
    {
        let buffered: u64 = if self.count_of_bits_in_buffer == 0 {
            0
        } else {
            1 + ((self.count_of_bits_in_buffer - 1) / 8) as u64
        };
        let result: u64 = self.binary_reader.stream_position() - buffered;
        if result > i64::MAX as u64 {
            return Err(PreflateError::InvalidSeek);
        }
        Ok(result as i64)
    }

    /// The place of the next bit, counted in bits.
    pub fn bit_position(&mut self) -> (r: Result<i64, PreflateError>)
        requires
            old(self)@.wf(),
        ensures
            final(self)@ == old(self)@,
            match r {
                Ok(p) => p == old(self)@.position() * 8 + old(self)@.bit_in_byte(),
                Err(e) => old(self)@.position() * 8 + old(self)@.bit_in_byte() > i64::MAX && e
                    == PreflateError::InvalidSeek,
            },
    {
        let position: i64 = self.position()?;
        let bit: i64 = self.bit_position_in_current_byte() as i64;
        if position > (i64::MAX - bit) / 8 {
            return Err(PreflateError::InvalidSeek);
        }
        Ok(position * 8 + bit)
    }

    /// The place of the byte that holds the next bit, counted from the
    /// place at which the reader started.
    pub fn relative_position(&mut self) -> (r: Result<i64, PreflateError>)
        requires
            old(self)@.wf(),
        ensures
            final(self)@ == old(self)@,
            match r {
                Ok(p) => p == old(self)@.position() - old(self)@.initial,
                Err(e) => old(self)@.position() > i64::MAX && e == PreflateError::InvalidSeek,
            },
    {
        let position: i64 = self.position()?;
        Ok(position - self.initial_position_in_binary_reader)
    }

    /// Number of the next bit in its byte, counted from 1; 8 at a byte boundary.
    pub fn bit_position_in_current_byte(&self) -> (r: u32)
        ensures
            r == self@.bit_in_byte(),
            1 <= r <= 8,
            self@.count <= 8 * self@.pos ==> r == if self@.bit_position() % 8 == 0 {
                8
            } else {
                self@.bit_position() % 8
            },
    {
        8 - (self.count_of_bits_in_buffer % 8)
    }

    /// Reads a whole byte. No bit may be buffered.
    pub fn read_byte(&mut self) -> (r: Result<u8, PreflateError>)
        ensures
            match r {
                Ok(v) => {
                    &&& old(self)@.count == 0
                    &&& old(self)@.available() >= 1
                    &&& v == old(self)@.data[old(self)@.pos as int]
                    &&& final(self)@ == (BitReaderModel {
                        pos: old(self)@.pos + 1,
                        max_readable_bytes: count_down(old(self)@.max_readable_bytes, 1),
                        ..old(self)@
                    })
                },
                Err(e) => if old(self)@.count != 0 {
                    e == PreflateError::BufferNotFlushed
                } else {
                    old(self)@.available() < 1 && e == PreflateError::EndOfStream
                },
            },
            old(self)@.wf() ==> final(self)@.wf(),
            final(self)@.data == old(self)@.data,
            old(self)@.count != 0 ==> final(self)@ == old(self)@,
            r is Err && old(self)@.count == 0 ==> final(self)@ == (BitReaderModel {
                max_readable_bytes: count_down(old(self)@.max_readable_bytes, 1),
                ..old(self)@
            }),
    {
        if self.count_of_bits_in_buffer != 0 {
            return Err(PreflateError::BufferNotFlushed);
        }
        self.max_readable_bytes = Self::count_down(self.max_readable_bytes, 1);
        self.binary_reader.read_u8()
    }

    /// Reads `cbit` bits as a number, the first bit lowest. At most 32
    /// bits can be read at once. Where no more bytes may be read than
    /// there are, the read succeeds where the buffer and the bytes that
    /// may be read hold as many bits, and only there.
    pub fn get(&mut self, cbit: u32) -> (r: Result<u32, PreflateError>)
        requires
            old(self)@.wf(),
        ensures
            match r {
                Ok(v) => {
                    &&& v == bits_at(old(self)@.data, old(self)@.bit_position(), cbit as nat)
                    &&& final(self)@.bit_position() == old(self)@.bit_position() + cbit
                    &&& final(self)@.data == old(self)@.data
                    &&& final(self)@.wf()
                    &&& old(self)@.get(cbit) == Ok::<(u32, BitReaderModel), PreflateError>(
                        (v, final(self)@),
                    )
                },
                Err(e) => old(self)@.get(cbit) == Err::<(u32, BitReaderModel), PreflateError>(e),
            },
            final(self)@.wf(),
            final(self)@.data == old(self)@.data,
            cbit == 0 || cbit > 32 ==> final(self)@ == old(self)@,
            0 <= old(self)@.max_readable_bytes <= old(self)@.available() ==> (r is Ok <==> cbit
                <= 32 && cbit <= old(self)@.count + 8 * old(self)@.max_readable_bytes),
    {
        let mut wret: u32 = 0;
        let mut cbits_added: u32 = 0;
        proof {
            if 0 <= self@.max_readable_bytes <= self@.available() {
                lemma_get_succeeds(self@, cbit);
            }
            lemma2_to64();
            lemma_pow2_pos(self@.bit_position() as nat);
        }
        let ghost start = self@.bit_position();
        if cbit == 0 {
            return Ok(wret);
        }
        if cbit > 32 {
            return Err(PreflateError::TooManyBits);
        }
        while cbits_added < cbit
            invariant
                cbits_added <= cbit <= 32,
                self@.wf(),
                0 <= start,
                start + cbits_added == self@.bit_position(),
                wret == bits_at(self@.data, start, cbits_added as nat),
                self@.data == old(self)@.data,
                old(self)@.get(cbit) == self@.get_from(cbit, cbits_added, wret),
                0 <= old(self)@.max_readable_bytes <= old(self)@.available() ==> (old(self)@.get(
                    cbit,
                ) is Ok <==> cbit <= 32 && cbit <= old(self)@.count + 8 * old(
                    self
                )@.max_readable_bytes),
            decreases cbit - cbits_added,
        {
            let cbits_needed: u32 = cbit - cbits_added;
            // The buffer has to hold one bit at least.
            match self.ensure_buffer() {
                Ok(()) => {},
                Err(e) => {
                    return Err(e);
                },
            }
            let cbits_from_buffer: u32 = if cbits_needed <= self.count_of_bits_in_buffer {
                cbits_needed
            } else {
                self.count_of_bits_in_buffer
            };
            // The bits go above those that the number already holds.
            proof {
                lemma_take_bits(self@, cbits_from_buffer, cbits_added, wret, start);
            }
            let low: u64 = self.return_value_buffer & !(u64::MAX << (cbits_from_buffer as u64));
            wret = wret | (#[verifier::truncate] ((low << (cbits_added as u64)) as u32));
            self.return_value_buffer = self.return_value_buffer >> (cbits_from_buffer as u64);
            self.count_of_bits_in_buffer = self.count_of_bits_in_buffer - cbits_from_buffer;
            cbits_added = cbits_added + cbits_from_buffer;
        }
        Ok(wret)
    }
}

} // verus!
