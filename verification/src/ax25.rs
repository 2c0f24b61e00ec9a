//! AX.25 UI frame construction: address fields, CRC-16/X.25 frame check
//! sequence, and the packed frame layout
//! `dest addr | src addr | digipeater addrs | control | PID | info | FCS`.

use vstd::prelude::*;

verus! {

use vstd::string::StringSliceAdditionalSpecFns;

pub const MAX_DIGIPEATERS: usize = 8;

pub const MAX_INFO_LEN: usize = 256;

pub const MAX_FRAME_LEN: usize = 330;

/// Control byte marking an unnumbered information frame.
pub const CONTROL_UI: u8 = 0x03;

/// Protocol identifier for "no layer 3".
pub const PID_NONE: u8 = 0xF0;

// ---------------------------------------------------------------------------
// CRC-16/X.25
// ---------------------------------------------------------------------------
/// One step of the reflected CRC-16/X.25: mix one message bit into the
/// running remainder (polynomial 0x8408, the bit-reversed 0x1021).
pub open spec fn crc16_step_bit(crc: u16, bit: bool) -> u16 {
    if ((crc & 1) == 1) != bit {
        (crc >> 1u16) ^ 0x8408
    } else {
        crc >> 1u16
    }
}

/// Mix the bits `k..8` of byte `b` (least significant first) into `crc`.
pub open spec fn crc16_byte_from(crc: u16, b: u8, k: int) -> u16
    decreases 8 - k,
{
    if k < 0 || k >= 8 {
        crc
    } else {
        crc16_byte_from(crc16_step_bit(crc, crate::bitstream::bit_of(b, k as u8)), b, k + 1)
    }
}

/// Mix every byte of `s` into `crc`, in order.
pub open spec fn crc16_bytes(crc: u16, s: Seq<u8>) -> u16
    decreases s.len(),
{
    if s.len() == 0 {
        crc
    } else {
        crc16_bytes(crc16_byte_from(crc, s.first(), 0), s.drop_first())
    }
}

/// The CRC-16/X.25 of a byte string: initial value 0xFFFF, bits fed least
/// significant first, final complement.
pub open spec fn crc16_spec(s: Seq<u8>) -> u16 {
    crc16_bytes(0xFFFF, s) ^ 0xFFFF
}

/// Feeding one more byte extends the running remainder.
proof fn lemma_crc16_bytes_snoc(crc: u16, s: Seq<u8>, b: u8)
    ensures
        crc16_bytes(crc, s.push(b)) == crc16_byte_from(crc16_bytes(crc, s), b, 0),
    decreases s.len(),
{
    if s.len() == 0 {
        assert(s.push(b).first() == b);
        assert(s.push(b).drop_first() =~= Seq::<u8>::empty());
        assert(crc16_bytes(crc, s.push(b)) == crc16_bytes(
            crc16_byte_from(crc, b, 0),
            Seq::<u8>::empty(),
        ));
        assert(crc16_bytes(crc16_byte_from(crc, b, 0), Seq::<u8>::empty()) == crc16_byte_from(
            crc,
            b,
            0,
        ));
    } else {
        assert(s.push(b).first() == s.first());
        assert(s.push(b).drop_first() =~= s.drop_first().push(b));
        lemma_crc16_bytes_snoc(crc16_byte_from(crc, s.first(), 0), s.drop_first(), b);
        assert(crc16_bytes(crc, s.push(b)) == crc16_bytes(
            crc16_byte_from(crc, s.first(), 0),
            s.drop_first().push(b),
        ));
        assert(crc16_bytes(crc, s) == crc16_bytes(
            crc16_byte_from(crc, s.first(), 0),
            s.drop_first(),
        ));
    }
}

/// The branch computed by the executable loop body equals the specification
/// step for bit `k` of byte `b`.
proof fn lemma_crc16_exec_step(crc: u16, b: u8, k: u8)
    requires
        k < 8,
    ensures
        ({
            let bit: u8 = (b >> k) & 1;
            let carry: u16 = (crc & 1) ^ (bit as u16);
            (if carry != 0 {
                (crc >> 1u16) ^ 0x8408
            } else {
                crc >> 1u16
            }) == crc16_step_bit(crc, crate::bitstream::bit_of(b, k))
        }),
{
    assert(((crc & 1) ^ (((b >> k) & 1) as u16) != 0) == (((crc & 1) == 1) != ((b >> k) & 1
        == 1))) by (bit_vector);
}

/// Frame check sequence over the AX.25 frame contents, flags and FCS
/// excluded.
pub fn crc16(data: &[u8]) -> (r: u16)
    ensures
        r == crc16_spec(data@),
{
    let mut crc: u16 = 0xFFFF;
    let mut i: usize = 0;
    while i < data.len()
        invariant
            i <= data@.len(),
            crc == crc16_bytes(0xFFFF, data@.take(i as int)),
        decreases data@.len() - i,
    {
        let byte = data[i];
        let mut k: u8 = 0;
        let ghost crc_start = crc;
        while k < 8
            invariant
                k <= 8,
                crc16_byte_from(crc, byte, k as int) == crc16_byte_from(crc_start, byte, 0),
            decreases 8 - k,
        {
            let bit: u8 = (byte >> k) & 1;
            let carry: u16 = (crc & 1) ^ (bit as u16);
            proof {
                lemma_crc16_exec_step(crc, byte, k);
            }
            crc = crc >> 1u16;
            if carry != 0 {
                crc = crc ^ 0x8408;
            }
            k = k + 1;
        }
        proof {
            lemma_crc16_bytes_snoc(0xFFFF, data@.take(i as int), byte);
            assert(data@.take(i as int).push(byte) =~= data@.take(i + 1));
        }
        i = i + 1;
    }
    proof {
        assert(data@.take(data@.len() as int) =~= data@);
    }
    crc ^ 0xFFFF
}

// ---------------------------------------------------------------------------
// Address fields
// ---------------------------------------------------------------------------
/// ASCII uppercase folding of a single byte.
pub open spec fn upper(b: u8) -> u8 {
    if 97 <= b <= 122 {
        (b - 32) as u8
    } else {
        b
    }
}

/// A callsign is encodable when its first six bytes (fewer if shorter) are
/// all ASCII.
pub open spec fn call_ok(call: Seq<u8>) -> bool {
    forall|i: int| 0 <= i < call.len() && i < 6 ==> call[i] < 128
}

/// Byte `i` of the encoded callsign: the uppercased character shifted left
/// one bit, space-padded past the end of the callsign.
pub open spec fn call_byte(call: Seq<u8>, i: int) -> u8 {
    if i < call.len() {
        upper(call[i]) << 1u8
    } else {
        0x40
    }
}

/// The SSID byte without the end-of-address bit: `011` high bits, the masked
/// SSID shifted into bits 4..1.
pub open spec fn ssid_byte(ssid: u8) -> u8 {
    0x60 | ((ssid & 0x0F) << 1u8)
}

/// The seven bytes of an encoded address field.
pub open spec fn address_bytes(call: Seq<u8>, ssid: u8) -> Seq<u8> {
    Seq::new(7, |i: int| if i < 6 { call_byte(call, i) } else { ssid_byte(ssid) })
}

/// Encode a callsign and SSID into the 7-byte AX.25 address form.  Fails
/// exactly when a non-ASCII byte occurs among the (up to six) callsign bytes
/// that are used.
pub fn encode_callsign(call: &str, ssid: u8) -> (r: Result<[u8; 7], ()>)
    ensures
        r is Ok <==> call_ok(call.spec_bytes()),
        r matches Ok(a) ==> a@ == address_bytes(call.spec_bytes(), ssid),
{
    let bytes: &[u8] = call.as_bytes();
    let n: usize = if bytes.len() < 6 {
        bytes.len()
    } else {
        6
    };
    let mut out: [u8; 7] = [0x40u8; 7];
    proof {
        vstd::array::axiom_spec_array_fill_for_copy_type::<u8, 7>(0x40u8);
        assert(forall|j: int| 0 <= j < 7 ==> out@[j] == 0x40);
    }
    let mut i: usize = 0;
    while i < n
        invariant
            bytes@ == call.spec_bytes(),
            n == if bytes@.len() < 6 {
                bytes@.len() as int
            } else {
                6
            },
            i <= n,
            forall|j: int| 0 <= j < i ==> bytes@[j] < 128,
            forall|j: int| 0 <= j < i ==> out@[j] == call_byte(bytes@, j),
            forall|j: int| i <= j < 7 ==> out@[j] == 0x40,
        decreases n - i,
    {
        let c = bytes[i];
        if c >= 128 {
            return Err(());
        }
        let up: u8 = if c >= 97 && c <= 122 {
            c - 32
        } else {
            c
        };
        let ghost prev = out@;
        out[i] = up << 1u8;
        proof {
            assert(out@ =~= prev.update(i as int, up << 1u8));
        }
        i = i + 1;
    }
    out[6] = 0x60 | ((ssid & 0x0F) << 1u8);
    proof {
        assert(forall|j: int| #![auto] n <= j < 6 ==> call_byte(call.spec_bytes(), j) == 0x40);
        assert(out@ =~= address_bytes(call.spec_bytes(), ssid));
    }
    Ok(out)
}

/// A 7-byte AX.25 address field: six shifted callsign bytes and an SSID byte.
#[derive(Clone, Copy, Debug)]
pub struct AddressField {
    raw: [u8; 7],
}

impl AddressField {
    /// The seven stored bytes.
    pub closed spec fn bytes(self) -> Seq<u8> {
        self.raw@
    }

    /// Build an address field from callsign text and SSID; fails exactly on
    /// non-ASCII callsign bytes.
    pub fn from_text(call: &str, ssid: u8) -> (r: Result<Self, ()>)
        ensures
            r is Ok <==> call_ok(call.spec_bytes()),
            r matches Ok(a) ==> a.bytes() == address_bytes(call.spec_bytes(), ssid),
    {
        match encode_callsign(call, ssid) {
            Ok(raw) => Ok(Self { raw }),
            Err(e) => Err(e),
        }
    }

    /// Wrap seven already-encoded bytes.
    pub fn from_raw(raw: [u8; 7]) -> (r: Self)
        ensures
            r.bytes() == raw@,
    {
        Self { raw }
    }

    /// The raw bytes of the field.
    pub fn raw(&self) -> (r: [u8; 7])
        ensures
            r@ == self.bytes(),
    {
        self.raw
    }
}

// ---------------------------------------------------------------------------
// UI frame layout
// ---------------------------------------------------------------------------
/// An address field as it appears in a frame: the end-of-address bit (bit 0
/// of the SSID byte) set on the last address of the stack, cleared elsewhere.
pub open spec fn addr_with_last(a: Seq<u8>, last: bool) -> Seq<u8> {
    a.update(
        6,
        if last {
            a[6] | 1
        } else {
            a[6] & 0xFE
        },
    )
}

/// Digipeater addresses packed back to back, none marked last.
pub open spec fn digis_mid(ds: Seq<Seq<u8>>) -> Seq<u8>
    decreases ds.len(),
{
    if ds.len() == 0 {
        Seq::empty()
    } else {
        digis_mid(ds.drop_last()) + addr_with_last(ds.last(), false)
    }
}

/// The digipeater address stack: the final address carries the
/// end-of-address bit.
pub open spec fn digis_bytes(ds: Seq<Seq<u8>>) -> Seq<u8> {
    if ds.len() == 0 {
        Seq::empty()
    } else {
        digis_mid(ds.drop_last()) + addr_with_last(ds.last(), true)
    }
}

/// The frame contents covered by the FCS: address stack, control byte, PID
/// and information field.
pub open spec fn ui_frame_body(dest: Seq<u8>, src: Seq<u8>, ds: Seq<Seq<u8>>, info: Seq<u8>) -> Seq<
    u8,
> {
    addr_with_last(dest, false) + addr_with_last(src, ds.len() == 0) + digis_bytes(ds)
        + seq![CONTROL_UI, PID_NONE] + info
}

/// A complete UI frame: the body followed by the FCS, low byte first.
pub open spec fn ui_frame_bytes(
    dest: Seq<u8>,
    src: Seq<u8>,
    ds: Seq<Seq<u8>>,
    info: Seq<u8>,
) -> Seq<u8> {
    let body = ui_frame_body(dest, src, ds, info);
    let crc = crc16_spec(body);
    body + seq![(crc & 0xFF) as u8, (crc >> 8u16) as u8]
}

/// Append one address field to the frame under construction.
fn push_address(frame: &mut Vec<u8>, address: &AddressField, last: bool)
    ensures
        final(frame)@ == old(frame)@ + addr_with_last(address.bytes(), last),
{
    let bytes = address.raw();
    let mut i: usize = 0;
    while i < 6
        invariant
            bytes@ == address.bytes(),
            i <= 6,
            frame@ == old(frame)@ + bytes@.take(i as int),
        decreases 6 - i,
    {
        frame.push(bytes[i]);
        proof {
            assert(bytes@.take(i + 1) =~= bytes@.take(i as int).push(bytes@[i as int]));
        }
        i = i + 1;
    }
    let b6: u8 = if last {
        bytes[6] | 1
    } else {
        bytes[6] & 0xFE
    };
    frame.push(b6);
    proof {
        assert(frame@ =~= old(frame)@ + addr_with_last(address.bytes(), last));
    }
}

/// Appending one more unmarked digipeater extends the packed middle stack.
proof fn lemma_digis_mid_snoc(ds: Seq<Seq<u8>>, a: Seq<u8>)
    ensures
        digis_mid(ds.push(a)) == digis_mid(ds) + addr_with_last(a, false),
{
    assert(ds.push(a).drop_last() =~= ds);
    assert(ds.push(a).last() == a);
}

/// Build a UI frame from the address stack and information field.  Fails
/// exactly when the digipeater count exceeds eight or the information field
/// exceeds 256 bytes; a successful frame never exceeds 330 bytes.
pub fn build_ui_frame(
    dest: AddressField,
    src: AddressField,
    digipeaters: &[AddressField],
    info: &[u8],
) -> (r: Result<Vec<u8>, ()>)
    ensures
        r is Err <==> (digipeaters@.len() > MAX_DIGIPEATERS || info@.len() > MAX_INFO_LEN),
        r matches Ok(frame) ==> {
            &&& frame@ == ui_frame_bytes(
                dest.bytes(),
                src.bytes(),
                digipeaters@.map_values(|a: AddressField| a.bytes()),
                info@,
            )
            &&& frame@.len() == 7 * (2 + digipeaters@.len()) + 2 + info@.len() + 2
            &&& frame@.len() <= MAX_FRAME_LEN
        },
{
    if digipeaters.len() > MAX_DIGIPEATERS {
        return Err(());
    }
    if info.len() > MAX_INFO_LEN {
        return Err(());
    }
    let ghost ds = digipeaters@.map_values(|a: AddressField| a.bytes());
    let mut frame: Vec<u8> = Vec::new();
    push_address(&mut frame, &dest, false);
    push_address(&mut frame, &src, digipeaters.is_empty());
    let ghost head = addr_with_last(dest.bytes(), false) + addr_with_last(
        src.bytes(),
        ds.len() == 0,
    );
    assert(frame@ =~= head);
    let n = digipeaters.len();
    proof {
        assert(ds.take(0) =~= Seq::<Seq<u8>>::empty());
        assert(head + digis_mid(Seq::<Seq<u8>>::empty()) =~= head);
        if n == 0 {
            assert(head + digis_bytes(ds) =~= head);
        }
    }
    let mut idx: usize = 0;
    while idx < n
        invariant
            n == digipeaters@.len() <= MAX_DIGIPEATERS,
            ds == digipeaters@.map_values(|a: AddressField| a.bytes()),
            idx <= n,
            idx < n ==> frame@ == head + digis_mid(ds.take(idx as int)),
            idx == n ==> frame@ == head + digis_bytes(ds),
            frame@.len() == 7 * (2 + idx),
        decreases n - idx,
    {
        let last = idx == n - 1;
        push_address(&mut frame, &digipeaters[idx], last);
        proof {
            if last {
                assert(ds.take(idx as int) =~= ds.drop_last());
                assert(ds[idx as int] == ds.last());
                assert(frame@ =~= head + digis_bytes(ds));
            } else {
                lemma_digis_mid_snoc(ds.take(idx as int), ds[idx as int]);
                assert(ds.take(idx as int).push(ds[idx as int]) =~= ds.take(idx + 1));
                assert(frame@ =~= head + digis_mid(ds.take(idx + 1)));
            }
        }
        idx = idx + 1;
    }
    frame.push(CONTROL_UI);
    frame.push(PID_NONE);
    let mut j: usize = 0;
    let ghost with_ctrl = frame@;
    while j < info.len()
        invariant
            j <= info@.len(),
            frame@ == with_ctrl + info@.take(j as int),
        decreases info@.len() - j,
    {
        frame.push(info[j]);
        proof {
            assert(info@.take(j + 1) =~= info@.take(j as int).push(info@[j as int]));
        }
        j = j + 1;
    }
    proof {
        assert(info@.take(info@.len() as int) =~= info@);
        assert(frame@ =~= ui_frame_body(dest.bytes(), src.bytes(), ds, info@));
    }
    let crc = crc16(frame.as_slice());
    frame.push((crc & 0xFF) as u8);
    frame.push((crc >> 8u16) as u8);
    proof {
        assert(frame@ =~= ui_frame_bytes(dest.bytes(), src.bytes(), ds, info@));
    }
    Ok(frame)
}

// ---------------------------------------------------------------------------
// Frame well-formedness
// ---------------------------------------------------------------------------
/// The end-of-address bit of address `k` of a packed frame.
pub open spec fn frame_addr_flag(f: Seq<u8>, k: int) -> u8 {
    f[7 * k + 6] & 1
}

proof fn lemma_addr_low_bit()
    by (bit_vector)
    ensures
        forall|b: u8| (#[trigger] ((b | 1) & 1)) == 1,
        forall|b: u8| (#[trigger] ((b & 0xFE) & 1)) == 0,
{
}

/// Length and placement of the packed digipeater stack: position `p` falls
/// in address `p / 7`, at byte `p % 7`; only the final address is marked
/// last.
proof fn lemma_digis_stack(ds: Seq<Seq<u8>>)
    requires
        forall|i: int| 0 <= i < ds.len() ==> (#[trigger] ds[i]).len() == 7,
    ensures
        digis_mid(ds).len() == 7 * ds.len(),
        digis_bytes(ds).len() == 7 * ds.len(),
        forall|p: int|
            0 <= p < 7 * ds.len() ==> #[trigger] digis_mid(ds)[p] == addr_with_last(
                ds[p / 7],
                false,
            )[p % 7],
        forall|p: int|
            0 <= p < 7 * ds.len() ==> #[trigger] digis_bytes(ds)[p] == addr_with_last(
                ds[p / 7],
                p / 7 == ds.len() - 1,
            )[p % 7],
    decreases ds.len(),
{
    if ds.len() > 0 {
        let dl = ds.drop_last();
        lemma_digis_stack(dl);
        let m = ds.len() - 1;
        assert forall|p: int| 0 <= p < 7 * ds.len() implies #[trigger] digis_mid(ds)[p]
            == addr_with_last(ds[p / 7], false)[p % 7] by {
            if p < 7 * m {
                assert(digis_mid(dl)[p] == addr_with_last(dl[p / 7], false)[p % 7]);
            } else {
                assert(p / 7 == m && p % 7 == p - 7 * m);
            }
        }
        assert forall|p: int| 0 <= p < 7 * ds.len() implies #[trigger] digis_bytes(ds)[p]
            == addr_with_last(ds[p / 7], p / 7 == ds.len() - 1)[p % 7] by {
            if p < 7 * m {
                assert(digis_mid(dl)[p] == addr_with_last(dl[p / 7], false)[p % 7]);
                assert(p / 7 < m);
            } else {
                assert(p / 7 == m && p % 7 == p - 7 * m);
            }
        }
    }
}

/// Well-formedness of every UI frame built from a full address stack: the
/// frame length is bounded by `MAX_FRAME_LEN`; the end-of-address bit (bit 0
/// of the SSID byte) is set on the last address of the stack and clear on
/// every other address; and the control byte `0x03` and PID `0xF0` follow
/// directly after the addresses.
pub proof fn lemma_ui_frame_well_formed(
    dest: Seq<u8>,
    src: Seq<u8>,
    ds: Seq<Seq<u8>>,
    info: Seq<u8>,
)
    requires
        dest.len() == 7,
        src.len() == 7,
        forall|i: int| 0 <= i < ds.len() ==> (#[trigger] ds[i]).len() == 7,
        ds.len() <= MAX_DIGIPEATERS,
        info.len() <= MAX_INFO_LEN,
    ensures
        ui_frame_bytes(dest, src, ds, info).len() == 7 * (2 + ds.len()) + 2 + info.len() + 2,
        ui_frame_bytes(dest, src, ds, info).len() <= MAX_FRAME_LEN,
        forall|k: int|
            0 <= k < 2 + ds.len() ==> #[trigger] frame_addr_flag(ui_frame_bytes(dest, src, ds, info), k)
                == if k == 1 + ds.len() {
                1u8
            } else {
                0u8
            },
        ui_frame_bytes(dest, src, ds, info)[7 * (2 + ds.len() as int)] == CONTROL_UI,
        ui_frame_bytes(dest, src, ds, info)[7 * (2 + ds.len() as int) + 1] == PID_NONE,
{
    let f = ui_frame_bytes(dest, src, ds, info);
    lemma_digis_stack(ds);
    lemma_addr_low_bit();
    assert forall|k: int| 0 <= k < 2 + ds.len() implies #[trigger] frame_addr_flag(f, k) == (
    if k == 1 + ds.len() {
        1u8
    } else {
        0u8
    }) by {
        let p = 7 * k + 6;
        if k == 0 {
            assert(f[p] == addr_with_last(dest, false)[6]);
        } else if k == 1 {
            assert(f[p] == addr_with_last(src, ds.len() == 0)[6]);
        } else {
            let q = p - 14;
            assert(q / 7 == k - 2 && q % 7 == 6);
            assert(digis_bytes(ds)[q] == addr_with_last(ds[k - 2], k - 2 == ds.len() - 1)[6]);
            assert(f[p] == digis_bytes(ds)[q]);
        }
    }
}

} // verus!
