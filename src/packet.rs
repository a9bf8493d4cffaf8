use vstd::prelude::*;
use vstd::string::StringSliceAdditionalSpecFns;

verus! {

/// The value of four bytes read as a little-endian unsigned word.
pub open spec fn le_u32(b0: u8, b1: u8, b2: u8, b3: u8) -> int {
    b0 as int + 256 * (b1 as int) + 65536 * (b2 as int) + 16777216 * (b3 as int)
}

/// The same four bytes read as a two's complement signed word.
pub open spec fn le_i32(b0: u8, b1: u8, b2: u8, b3: u8) -> int {
    let v = le_u32(b0, b1, b2, b3);
    if v < 0x8000_0000 {
        v
    } else {
        v - 0x1_0000_0000
    }
}

/// The four bytes of a word, least significant first.
pub open spec fn le_bytes(w: u32) -> Seq<u8> {
    seq![
        (w % 256) as u8,
        ((w / 256) % 256) as u8,
        ((w / 65536) % 256) as u8,
        (w / 16777216) as u8,
    ]
}

/// A credential laid out in a fixed field: left-justified, zero-padded,
/// cut at the field's width.
pub open spec fn padded_field(s: Seq<u8>) -> Seq<u8> {
    Seq::new(CREDENTIAL_LEN as nat, |i: int| if i < s.len() { s[i] } else { 0u8 })
}

/// Width of each credential field of a control packet.
pub const CREDENTIAL_LEN: usize = 32;

/// Size of a control packet on the wire.
pub const PACKET_LEN: usize = 80;

/// Size of a frame header on the wire.
pub const FRAME_HEADER_LEN: usize = 16;

/// Bit of the first command word that asks for a stream to start.
pub const START_FLAG: u32 = 0x40;

fn read_le_u32(b0: u8, b1: u8, b2: u8, b3: u8) -> (r: u32)
    ensures
        r as int == le_u32(b0, b1, b2, b3),
{
    assert(le_u32(b0, b1, b2, b3) <= 0xffff_ffff) by (nonlinear_arith);
    assert(256 * (b1 as int) <= 0xffff) by (nonlinear_arith);
    assert(65536 * (b2 as int) <= 0xff_ffff) by (nonlinear_arith);
    assert(16777216 * (b3 as int) <= 0xffff_ffff) by (nonlinear_arith);
    b0 as u32 + 256 * (b1 as u32) + 65536 * (b2 as u32) + 16777216 * (b3 as u32)
}

fn read_le_i32(b0: u8, b1: u8, b2: u8, b3: u8) -> (r: i32)
    ensures
        r as int == le_i32(b0, b1, b2, b3),
{
    let w = read_le_u32(b0, b1, b2, b3);
    if w < 0x8000_0000 {
        w as i32
    } else {
        (w - 0x8000_0000) as i32 + i32::MIN
    }
}

fn push_le_u32(out: &mut Vec<u8>, w: u32)
    ensures
        final(out)@ == old(out)@ + le_bytes(w),
{
    out.push((w % 256) as u8);
    out.push(((w / 256) % 256) as u8);
    out.push(((w / 65536) % 256) as u8);
    out.push((w / 16777216) as u8);
    assert(final(out)@ =~= old(out)@ + le_bytes(w));
}

/// The prefix of every frame: how long its payload is and what it carries.
#[derive(Copy, Clone, Debug)]
pub struct CameraCmdFrameHeader {
    pub frame_len: u32,
    pub itrack: i32,
    pub flags: i32,
    pub padding: u32,
}

impl CameraCmdFrameHeader {
    /// The header that the given sixteen bytes encode.
    pub open spec fn decoded(raw: Seq<u8>) -> (CameraCmdFrameHeader)
        recommends
            raw.len() == FRAME_HEADER_LEN,
    {
        CameraCmdFrameHeader {
            frame_len: le_u32(raw[0], raw[1], raw[2], raw[3]) as u32,
            itrack: le_i32(raw[4], raw[5], raw[6], raw[7]) as i32,
            flags: le_i32(raw[8], raw[9], raw[10], raw[11]) as i32,
            padding: le_u32(raw[12], raw[13], raw[14], raw[15]) as u32,
        }
    }

    /// Decodes a header field by field: a little-endian length, a signed
    /// track id, signed flags and four reserved bytes.
    pub fn from_bytes(raw: [u8; 16]) -> (r: CameraCmdFrameHeader)
        ensures
            r == Self::decoded(raw@),
            r.frame_len as int == le_u32(raw[0], raw[1], raw[2], raw[3]),
            r.itrack as int == le_i32(raw[4], raw[5], raw[6], raw[7]),
            r.flags as int == le_i32(raw[8], raw[9], raw[10], raw[11]),
    {
        CameraCmdFrameHeader {
            frame_len: read_le_u32(raw[0], raw[1], raw[2], raw[3]),
            itrack: read_le_i32(raw[4], raw[5], raw[6], raw[7]),
            flags: read_le_i32(raw[8], raw[9], raw[10], raw[11]),
            padding: read_le_u32(raw[12], raw[13], raw[14], raw[15]),
        }
    }
}

impl From<[u8; 16]> for CameraCmdFrameHeader {
    fn from(raw: [u8; 16]) -> (r: CameraCmdFrameHeader)
        ensures
            r == Self::decoded(raw@),
    {
        Self::from_bytes(raw)
    }
}

impl vstd::std_specs::convert::FromSpecImpl<[u8; 16]> for CameraCmdFrameHeader {
    open spec fn obeys_from_spec() -> bool {
        true
    }

    open spec fn from_spec(raw: [u8; 16]) -> CameraCmdFrameHeader {
        Self::decoded(raw@)
    }
}

/// The command that starts or stops a stream, with the credentials.
#[derive(Copy, Clone, Debug)]
pub struct CameraCmdPacket {
    pub cmd: [u32; 4],
    pub user: [u8; 32],
    pub pass: [u8; 32],
}

fn fill_field(src: &[u8]) -> (r: [u8; 32])
    ensures
        r@ == padded_field(src@),
{
    let mut field = [0u8; 32];
    let n: usize = if src.len() < CREDENTIAL_LEN { src.len() } else { CREDENTIAL_LEN };
    let mut i: usize = 0;
    while i < n
        invariant
            n <= src@.len(),
            n <= CREDENTIAL_LEN,
            i <= n,
            field@.len() == CREDENTIAL_LEN,
            forall|j: int| 0 <= j < i ==> field@[j] == src@[j],
            forall|j: int| i <= j < CREDENTIAL_LEN ==> field@[j] == 0u8,
        decreases n - i,
    {
        field[i] = src[i];
        i = i + 1;
    }
    assert(field@ =~= padded_field(src@));
    field
}

impl CameraCmdPacket {
    /// Whether this packet is the control packet for the given request,
    /// credentials (as UTF-8 bytes) and direction.
    pub open spec fn is_command(
        self,
        req_type: i32,
        user: Seq<u8>,
        pass: Seq<u8>,
        is_start: bool,
    ) -> bool {
        &&& self.cmd[0] == if is_start { START_FLAG } else { 0u32 }
        &&& self.cmd[1] == req_type as u32
        &&& self.cmd[2] == 0u32
        &&& self.cmd[3] == 0u32
        &&& self.user@ == padded_field(user)
        &&& self.pass@ == padded_field(pass)
    }

    /// The packet on the wire: the four command words, then the two
    /// credential fields.
    pub open spec fn wire(self) -> Seq<u8> {
        le_bytes(self.cmd[0]) + le_bytes(self.cmd[1]) + le_bytes(self.cmd[2]) + le_bytes(
            self.cmd[3],
        ) + self.user@ + self.pass@
    }

    /// Builds the control packet that starts (or stops) a stream of the given
    /// request type. A credential longer than its field is cut.
    pub fn new(req_type: i32, user: &str, pass: &str, is_start: bool) -> (r: CameraCmdPacket)
        ensures
            r.is_command(req_type, user.spec_bytes(), pass.spec_bytes(), is_start),
    {
        let first: u32 = if is_start { START_FLAG } else { 0 };
        CameraCmdPacket {
            cmd: [first, req_type as u32, 0, 0],
            user: fill_field(user.as_bytes()),
            pass: fill_field(pass.as_bytes()),
        }
    }

    /// Encodes the packet: each command word little-endian, then the fields.
    pub fn as_bytes(&self) -> (r: Vec<u8>)
        ensures
            r@ == self.wire(),
            r@.len() == PACKET_LEN,
    {
        let mut out: Vec<u8> = Vec::new();
        push_le_u32(&mut out, self.cmd[0]);
        push_le_u32(&mut out, self.cmd[1]);
        push_le_u32(&mut out, self.cmd[2]);
        push_le_u32(&mut out, self.cmd[3]);
        let mut i: usize = 0;
        while i < CREDENTIAL_LEN
            invariant
                i <= CREDENTIAL_LEN,
                out@ == le_bytes(self.cmd[0]) + le_bytes(self.cmd[1]) + le_bytes(self.cmd[2])
                    + le_bytes(self.cmd[3]) + self.user@.take(i as int),
            decreases CREDENTIAL_LEN - i,
        {
            out.push(self.user[i]);
            i = i + 1;
            assert(self.user@.take(i as int) =~= self.user@.take(i - 1) + seq![self.user@[i - 1]]);
        }
        assert(self.user@.take(32) =~= self.user@);
        let mut i: usize = 0;
        while i < CREDENTIAL_LEN
            invariant
                i <= CREDENTIAL_LEN,
                out@ == le_bytes(self.cmd[0]) + le_bytes(self.cmd[1]) + le_bytes(self.cmd[2])
                    + le_bytes(self.cmd[3]) + self.user@ + self.pass@.take(i as int),
            decreases CREDENTIAL_LEN - i,
        {
            out.push(self.pass[i]);
            i = i + 1;
            assert(self.pass@.take(i as int) =~= self.pass@.take(i - 1) + seq![self.pass@[i - 1]]);
        }
        assert(self.pass@.take(32) =~= self.pass@);
        out
    }
}

} // verus!
