//! Framebuffer and line-packet assembly for a Sharp memory LCD.  Each line
//! is kept as a ready-to-send packet: a bit-reversed line number, the pixel
//! bytes, and a trailing pad byte.  `flush` hands back the byte stream for
//! the dirty lines; the surrounding program owns the SPI bus and chip
//! select.

use vstd::prelude::*;

verus! {

pub const BLACK: u8 = 0;

pub const WHITE: u8 = 1;

/// Command bit for a line write, bit-reversed for the wire.
pub const SHARP_BIT_WRITECMD: u8 = 0x80;

/// VCOM toggle bit, bit-reversed for the wire.
pub const SHARP_BIT_VCOM: u8 = 0x40;

pub const WIDTH: usize = 400;

pub const HEIGHT: usize = 240;

/// One line packet: line number byte, pixel data, trailing pad byte.
pub const LINE_PACKET_LEN: usize = WIDTH / 8 + 2;

/// The bits of `b` in reverse order.
pub open spec fn rev_byte(b: u8) -> u8 {
    ((b >> 7u8) & 1) | (((b >> 6u8) & 1) << 1u8) | (((b >> 5u8) & 1) << 2u8) | (((b >> 4u8) & 1)
        << 3u8) | (((b >> 3u8) & 1) << 4u8) | (((b >> 2u8) & 1) << 5u8) | (((b >> 1u8) & 1)
        << 6u8) | ((b & 1) << 7u8)
}

/// Reverse the bit order of a byte: bit `i` of the result is bit `7 - i` of
/// the argument.
pub fn reverse_byte(b: u8) -> (r: u8)
    ensures
        r == rev_byte(b),
{
    ((b >> 7u8) & 1) | (((b >> 6u8) & 1) << 1u8) | (((b >> 5u8) & 1) << 2u8) | (((b >> 4u8) & 1)
        << 3u8) | (((b >> 3u8) & 1) << 4u8) | (((b >> 2u8) & 1) << 5u8) | (((b >> 1u8) & 1)
        << 6u8) | ((b & 1) << 7u8)
}

/// A fresh line packet: the bit-reversed one-based line number, white
/// pixels, and the trailing pad byte.
pub open spec fn fresh_line(y: int) -> Seq<u8> {
    Seq::new(
        LINE_PACKET_LEN as nat,
        |j: int|
            if j == 0 {
                rev_byte((y + 1) as u8)
            } else if j == LINE_PACKET_LEN - 1 {
                0
            } else {
                0xFF
            },
    )
}

/// The framebuffer of a Sharp memory LCD, kept as wire-ready line packets
/// with per-line dirty flags and the alternating VCOM state.
pub struct SharpDisplay {
    buffer: Vec<Vec<u8>>,
    dirty_lines: Vec<bool>,
    vcom: u8,
}

/// The packets of the lines marked dirty, from line `i` on, back to back.
pub open spec fn dirty_concat(lines: Seq<Seq<u8>>, d: Seq<bool>, i: int) -> Seq<u8>
    decreases lines.len() - i,
{
    if i < 0 || i >= lines.len() {
        Seq::empty()
    } else if i < d.len() && d[i] {
        lines[i] + dirty_concat(lines, d, i + 1)
    } else {
        dirty_concat(lines, d, i + 1)
    }
}

impl SharpDisplay {
    /// The line packets.
    pub closed spec fn lines(self) -> Seq<Seq<u8>> {
        self.buffer@.map_values(|v: Vec<u8>| v@)
    }

    /// The per-line dirty flags.
    pub closed spec fn dirty(self) -> Seq<bool> {
        self.dirty_lines@
    }

    /// The VCOM bit to send with the next flush.
    pub closed spec fn vcom_spec(self) -> u8 {
        self.vcom
    }

    /// A full set of full-size line packets with per-line flags, and a
    /// VCOM state that is either the VCOM bit or zero.
    pub closed spec fn wf(self) -> bool {
        &&& self.buffer@.len() == HEIGHT
        &&& forall|y: int| 0 <= y < HEIGHT ==> (#[trigger] self.buffer@[y])@.len() == LINE_PACKET_LEN
        &&& self.dirty_lines@.len() == HEIGHT
        &&& (self.vcom == SHARP_BIT_VCOM || self.vcom == 0)
    }

    /// A fresh all-white framebuffer with every line dirty.
    pub fn new() -> (r: Self)
        ensures
            r.wf(),
            r.lines().len() == HEIGHT,
            forall|y: int| 0 <= y < HEIGHT ==> #[trigger] r.lines()[y] == fresh_line(y),
            forall|y: int| 0 <= y < HEIGHT ==> #[trigger] r.dirty()[y],
            r.vcom_spec() == SHARP_BIT_VCOM,
    {
        let mut buffer: Vec<Vec<u8>> = Vec::new();
        let mut dirty_lines: Vec<bool> = Vec::new();
        let mut y: usize = 0;
        while y < HEIGHT
            invariant
                y <= HEIGHT,
                buffer@.len() == y,
                dirty_lines@.len() == y,
                forall|i: int|
                    0 <= i < y ==> (#[trigger] buffer@[i])@.len() == LINE_PACKET_LEN && buffer@[i]@
                        == fresh_line(i),
                forall|i: int| 0 <= i < y ==> #[trigger] dirty_lines@[i],
            decreases HEIGHT - y,
        {
            let mut line: Vec<u8> = Vec::new();
            line.push(reverse_byte((y + 1) as u8));
            let mut j: usize = 1;
            while j < LINE_PACKET_LEN - 1
                invariant
                    1 <= j <= LINE_PACKET_LEN - 1,
                    line@.len() == j,
                    line@[0] == rev_byte((y + 1) as u8),
                    forall|t: int| 1 <= t < j ==> line@[t] == 0xFF,
                    y < HEIGHT,
                decreases LINE_PACKET_LEN - j,
            {
                line.push(0xFF);
                j = j + 1;
            }
            line.push(0x00);
            proof {
                assert(line@ =~= fresh_line(y as int));
            }
            buffer.push(line);
            dirty_lines.push(true);
            y = y + 1;
        }
        let r = Self { buffer, dirty_lines, vcom: SHARP_BIT_VCOM };
        proof {
            assert(forall|i: int|
                0 <= i < HEIGHT ==> #[trigger] r.lines()[i] == r.buffer@[i]@);
        }
        r
    }

    /// Set one pixel.  Out-of-range coordinates are ignored.  Coordinates
    /// are mirrored in both axes; the pixel's bit is addressed through the
    /// bit-reversed mask the panel expects, and the touched line is marked
    /// dirty exactly when its byte changed.
    pub fn draw_pixel(&mut self, x: usize, y: usize, color: u8)
        requires
            old(self).wf(),
        ensures
            final(self).wf(),
            final(self).vcom_spec() == old(self).vcom_spec(),
            x >= WIDTH || y >= HEIGHT ==> *final(self) == *old(self),
            x < WIDTH && y < HEIGHT ==> ({
                let xr = WIDTH - 1 - x;
                let yr = HEIGHT - 1 - y;
                let idx = 1 + xr / 8;
                let mask = rev_byte(1u8 << ((xr % 8) as u8));
                let oldb = old(self).lines()[yr as int][idx as int];
                let newb = if color == BLACK {
                    oldb & !mask
                } else if color == WHITE {
                    oldb | mask
                } else {
                    oldb
                };
                &&& final(self).lines() == old(self).lines().update(
                    yr as int,
                    old(self).lines()[yr as int].update(idx as int, newb),
                )
                &&& final(self).dirty() == old(self).dirty().update(
                    yr as int,
                    old(self).dirty()[yr as int] || newb != oldb,
                )
            }),
    {
        if x >= WIDTH || y >= HEIGHT {
            return ;
        }
        let xr = WIDTH - 1 - x;
        let yr = HEIGHT - 1 - y;
        let byte_idx = 1 + xr / 8;
        let mask = reverse_byte(1u8 << ((xr % 8) as u8));
        let row = &mut self.buffer[yr];
        let oldb = row[byte_idx];
        let newb = if color == BLACK {
            oldb & !mask
        } else if color == WHITE {
            oldb | mask
        } else {
            oldb
        };
        row.set(byte_idx, newb);
        let was_dirty = self.dirty_lines[yr];
        self.dirty_lines.set(yr, was_dirty || newb != oldb);
        proof {
            let f = |v: Vec<u8>| v@;
            assert(self.buffer@.map_values(f) =~= old(self).buffer@.map_values(f).update(
                yr as int,
                old(self).buffer@.map_values(f)[yr as int].update(byte_idx as int, newb),
            ));
            assert(self.dirty_lines@ =~= old(self).dirty_lines@.update(
                yr as int,
                old(self).dirty_lines@[yr as int] || newb != oldb,
            ));
        }
    }

    /// Assemble the byte stream for one refresh: the VCOM and write-command
    /// byte, the packets of every dirty line, and a trailing pad byte.  All
    /// lines become clean and the VCOM bit toggles for the next refresh.
    pub fn flush(&mut self) -> (r: Vec<u8>)
        requires
            old(self).wf(),
        ensures
            final(self).wf(),
            r@ == seq![(old(self).vcom_spec() | SHARP_BIT_WRITECMD) as u8] + dirty_concat(
                old(self).lines(),
                old(self).dirty(),
                0,
            ) + seq![0u8],
            final(self).lines() == old(self).lines(),
            forall|y: int| 0 <= y < HEIGHT ==> !(#[trigger] final(self).dirty()[y]),
            final(self).vcom_spec() == (old(self).vcom_spec() ^ SHARP_BIT_VCOM) as u8,
    {
        let mut out: Vec<u8> = Vec::new();
        out.push(self.vcom | SHARP_BIT_WRITECMD);
        let ghost lines0 = self.lines();
        let ghost d0 = self.dirty_lines@;
        let mut y: usize = 0;
        proof {
            assert(out@ =~= seq![(self.vcom | SHARP_BIT_WRITECMD) as u8] + prefix_of(
                lines0,
                d0,
                0,
            ));
        }
        while y < HEIGHT
            invariant
                self.wf(),
                y <= HEIGHT,
                lines0 == self.lines(),
                lines0.len() == HEIGHT,
                d0.len() == HEIGHT,
                self.vcom == old(self).vcom_spec(),
                forall|t: int| 0 <= t < y ==> !(#[trigger] self.dirty_lines@[t]),
                forall|t: int| y <= t < HEIGHT ==> self.dirty_lines@[t] == d0[t],
                out@ == seq![(old(self).vcom_spec() | SHARP_BIT_WRITECMD) as u8] + prefix_of(
                    lines0,
                    d0,
                    y as int,
                ),
            decreases HEIGHT - y,
        {
            if self.dirty_lines[y] {
                let row_len = self.buffer[y].len();
                let mut j: usize = 0;
                let ghost out_pre = out@;
                while j < row_len
                    invariant
                        j <= row_len,
                        y < HEIGHT,
                        row_len == self.buffer@[y as int]@.len(),
                        lines0 == self.lines(),
                        lines0.len() == HEIGHT,
                        self.wf(),
                        out@ == out_pre + self.buffer@[y as int]@.take(j as int),
                    decreases row_len - j,
                {
                    let b = self.buffer[y][j];
                    out.push(b);
                    proof {
                        assert(self.buffer@[y as int]@.take(j + 1) =~= self.buffer@[
                            y as int
                        ]@.take(j as int).push(b));
                    }
                    j = j + 1;
                }
                proof {
                    assert(self.buffer@[y as int]@.take(row_len as int) =~= self.buffer@[
                        y as int
                    ]@);
                    assert(self.lines()[y as int] == self.buffer@[y as int]@);
                }
                self.dirty_lines.set(y, false);
            }
            proof {
                assert(prefix_of(lines0, d0, y + 1) =~= prefix_of(lines0, d0, y as int) + (
                if d0[y as int] {
                    lines0[y as int]
                } else {
                    Seq::empty()
                }));
                assert(out@ =~= seq![(old(self).vcom_spec() | SHARP_BIT_WRITECMD) as u8]
                    + prefix_of(lines0, d0, y + 1));
            }
            y = y + 1;
        }
        out.push(0x00);
        proof {
            lemma_prefix_whole(lines0, d0);
            assert(out@ =~= seq![(old(self).vcom_spec() | SHARP_BIT_WRITECMD) as u8]
                + dirty_concat(lines0, d0, 0) + seq![0u8]);
            assert((0x40u8 ^ 0x40) == 0 && (0u8 ^ 0x40) == 0x40) by (bit_vector);
        }
        self.vcom = self.vcom ^ SHARP_BIT_VCOM;
        out
    }
}

/// The packets of the dirty lines among the first `i` lines.
pub open spec fn prefix_of(lines: Seq<Seq<u8>>, d: Seq<bool>, i: int) -> Seq<u8>
    decreases i,
{
    if i <= 0 {
        Seq::empty()
    } else {
        prefix_of(lines, d, i - 1) + if 0 <= i - 1 < d.len() && d[i - 1] {
            lines[i - 1]
        } else {
            Seq::empty()
        }
    }
}

/// Walking all lines from the front or gathering them from the back yields
/// the same dirty-line stream.
proof fn lemma_prefix_mid(lines: Seq<Seq<u8>>, d: Seq<bool>, i: int)
    requires
        0 <= i <= lines.len(),
        d.len() == lines.len(),
    ensures
        prefix_of(lines, d, i) + dirty_concat(lines, d, i) == prefix_of(
            lines,
            d,
            lines.len() as int,
        ),
    decreases lines.len() - i,
{
    if i == lines.len() {
        assert(dirty_concat(lines, d, i) =~= Seq::<u8>::empty());
        assert(prefix_of(lines, d, i) + Seq::<u8>::empty() =~= prefix_of(lines, d, i));
    } else {
        lemma_prefix_mid(lines, d, i + 1);
        assert(prefix_of(lines, d, i + 1) =~= prefix_of(lines, d, i) + (
        if 0 <= i < d.len() && d[i] {
            lines[i]
        } else {
            Seq::empty()
        }));
        if 0 <= i < d.len() && d[i] {
            assert((prefix_of(lines, d, i) + lines[i]) + dirty_concat(lines, d, i + 1)
                =~= prefix_of(lines, d, i) + (lines[i] + dirty_concat(lines, d, i + 1)));
        } else {
            assert(prefix_of(lines, d, i) + Seq::<u8>::empty() =~= prefix_of(lines, d, i));
        }
    }
}

/// The whole dirty-line stream equals the front-to-back gathering.
proof fn lemma_prefix_whole(lines: Seq<Seq<u8>>, d: Seq<bool>)
    requires
        d.len() == lines.len(),
    ensures
        prefix_of(lines, d, lines.len() as int) == dirty_concat(lines, d, 0),
{
    lemma_prefix_mid(lines, d, 0);
    assert(prefix_of(lines, d, 0) + dirty_concat(lines, d, 0) =~= dirty_concat(lines, d, 0));
}

/// An error surfaced while pushing a flush to the panel: a chip-select pin
/// fault or an SPI bus fault.
#[derive(Debug)]
pub enum DisplayError<PinE, SpiE> {
    Pin(PinE),
    Spi(SpiE),
}

impl<PinE, SpiE> DisplayError<PinE, SpiE> {
    /// Wrap a chip-select pin fault.
    pub fn pin(e: PinE) -> (r: Self)
        ensures
            r == DisplayError::<PinE, SpiE>::Pin(e),
    {
        DisplayError::Pin(e)
    }

    /// Wrap an SPI bus fault.
    pub fn spi(e: SpiE) -> (r: Self)
        ensures
            r == DisplayError::<PinE, SpiE>::Spi(e),
    {
        DisplayError::Spi(e)
    }
}

} // verus!
