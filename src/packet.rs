use vstd::prelude::*;

verus! {

/// The kind of a frame, carried in its first byte.
#[allow(non_camel_case_types, clippy::upper_case_acronyms)]
#[derive(Clone, Copy, PartialEq, Eq, Debug, Structural)]
pub enum FlagState {
    WARNING,
    COLLISION,
    COORDINATE,
    EXIT,
}

/// The kind that a tag byte stands for. Tags other than the four known ones
/// are read leniently as `WARNING`, so that newer peers do not break older
/// decoders.
pub open spec fn flag_of_tag(tag: u8) -> FlagState {
    if tag == 1 {
        FlagState::COLLISION
    } else if tag == 2 {
        FlagState::COORDINATE
    } else if tag == 3 {
        FlagState::EXIT
    } else {
        FlagState::WARNING
    }
}

/// The tag byte written for a kind.
pub open spec fn tag_of_flag(flag: FlagState) -> u8 {
    match flag {
        FlagState::WARNING => 0,
        FlagState::COLLISION => 1,
        FlagState::COORDINATE => 2,
        FlagState::EXIT => 3,
    }
}

/// Printable name of a kind.
pub open spec fn flag_name(flag: FlagState) -> Seq<char> {
    match flag {
        FlagState::WARNING => "WARNING"@,
        FlagState::COLLISION => "COLLISION"@,
        FlagState::COORDINATE => "COORDINATE"@,
        FlagState::EXIT => "EXIT"@,
    }
}

impl FlagState {
    /// The kind for a tag byte; unknown tags give `WARNING`.
    pub fn init(in_state: u8) -> (r: FlagState)
        ensures
            r == flag_of_tag(in_state),
    {
        match in_state {
            1 => FlagState::COLLISION,
            2 => FlagState::COORDINATE,
            3 => FlagState::EXIT,
            _ => FlagState::WARNING,
        }
    }

    /// The tag byte of this kind.
    pub fn tag(&self) -> (r: u8)
        ensures
            r == tag_of_flag(*self),
    {
        match self {
            FlagState::WARNING => 0,
            FlagState::COLLISION => 1,
            FlagState::COORDINATE => 2,
            FlagState::EXIT => 3,
        }
    }

    /// The name of this kind, in capitals.
    pub fn to_string(&self) -> (r: String)
        ensures
            r@ == flag_name(*self),
    {
        match self {
            FlagState::WARNING => String::from_str("WARNING"),
            FlagState::COLLISION => String::from_str("COLLISION"),
            FlagState::COORDINATE => String::from_str("COORDINATE"),
            FlagState::EXIT => String::from_str("EXIT"),
        }
    }
}

/// Why a byte sequence is not a frame.
#[derive(Clone, Copy, PartialEq, Eq, Debug, Structural)]
pub enum FrameError {
    /// Fewer than the five bytes of a header.
    ShortHeader,
    /// Fewer body bytes than the header announces.
    ShortBody,
}

/// Length in bytes of an encoded header.
pub const HEADER_LEN: usize = 5;

pub open spec fn frame_error_message(e: FrameError) -> Seq<char> {
    match e {
        FrameError::ShortHeader => "Vector does not have enought elements for a PacketHeader"@,
        FrameError::ShortBody => "Stream ended before the whole packet body was read"@,
    }
}

impl FrameError {
    /// A sentence describing the error.
    pub fn to_string(&self) -> (r: String)
        ensures
            r@ == frame_error_message(*self),
    {
        match self {
            FrameError::ShortHeader => String::from_str(
                "Vector does not have enought elements for a PacketHeader",
            ),
            FrameError::ShortBody => String::from_str(
                "Stream ended before the whole packet body was read",
            ),
        }
    }
}

/// The fixed-size header of a frame.
#[derive(Clone, Copy, PartialEq, Eq, Debug, Structural)]
pub struct PacketHeader {
    pub flag: FlagState,
    pub plane_id: u8,
    /// Length in bytes of the body that follows the header.
    pub body_size: u16,
    /// During a bulk transfer, how many chunks follow this one; 0 on the last.
    pub seq_len: u8,
}

/// Wire form of a header: kind tag, aircraft id, body size low byte then high
/// byte, remaining-chunk count.
pub open spec fn header_bytes(h: PacketHeader) -> Seq<u8> {
    seq![
        tag_of_flag(h.flag),
        h.plane_id,
        (h.body_size % 0x100) as u8,
        (h.body_size / 0x100) as u8,
        h.seq_len,
    ]
}

/// The header read from the first five bytes of `b`.
pub open spec fn header_from_bytes(b: Seq<u8>) -> Result<PacketHeader, FrameError> {
    if b.len() < 5 {
        Err(FrameError::ShortHeader)
    } else {
        Ok(
            PacketHeader {
                flag: flag_of_tag(b[0]),
                plane_id: b[1],
                body_size: (b[2] + b[3] * 0x100) as u16,
                seq_len: b[4],
            },
        )
    }
}

/// The empty header: a `WARNING` from aircraft 0 with no body.
pub open spec fn empty_header() -> PacketHeader {
    PacketHeader { flag: FlagState::WARNING, plane_id: 0, body_size: 0, seq_len: 0 }
}

impl PacketHeader {
    /// The empty header: a `WARNING` from aircraft 0 with no body.
    pub fn init() -> (r: PacketHeader)
        ensures
            r == empty_header(),
    {
        PacketHeader { flag: FlagState::WARNING, plane_id: 0, body_size: 0, seq_len: 0 }
    }

    /// Reads a header from the first five bytes of `stream`; fails with
    /// `ShortHeader` when there are fewer.
    pub fn deseralize_packet_header(stream: &[u8]) -> (r: Result<PacketHeader, FrameError>)
        ensures
            r == header_from_bytes(stream@),
            r is Err <==> stream@.len() < HEADER_LEN,
    {
        if stream.len() < HEADER_LEN {
            return Err(FrameError::ShortHeader);
        }
        let low = stream[2] as u16;
        let high = stream[3] as u16;
        Ok(
            PacketHeader {
                flag: FlagState::init(stream[0]),
                plane_id: stream[1],
                body_size: low + high * 0x100,
                seq_len: stream[4],
            },
        )
    }

    /// The five bytes of this header.
    pub fn seralize_packet_header(&self) -> (r: Vec<u8>)
        ensures
            r@ == header_bytes(*self),
            r@.len() == HEADER_LEN,
    {
        let mut bytes: Vec<u8> = Vec::new();
        bytes.push(self.flag.tag());
        bytes.push(self.plane_id);
        bytes.push((self.body_size % 0x100) as u8);
        bytes.push((self.body_size / 0x100) as u8);
        bytes.push(self.seq_len);
        assert(bytes@ =~= header_bytes(*self));
        bytes
    }
}

/// A frame: a header and the body bytes that follow it.
#[derive(Debug, PartialEq)]
pub struct Packet {
    pub header: PacketHeader,
    pub body: Vec<u8>,
}

/// What a frame holds, as a value.
pub struct PacketView {
    pub header: PacketHeader,
    pub body: Seq<u8>,
}

impl View for Packet {
    type V = PacketView;

    open spec fn view(&self) -> PacketView {
        PacketView { header: self.header, body: self.body@ }
    }
}

/// A frame is well formed when its header announces the length of its body.
pub open spec fn packet_well_formed(p: PacketView) -> bool {
    p.body.len() == p.header.body_size
}

/// Wire form of a frame: its header, then its body.
pub open spec fn packet_bytes(p: PacketView) -> Seq<u8> {
    header_bytes(p.header) + p.body
}

/// The frame at the start of `b`: a header, then exactly as many body bytes as
/// it announces. Bytes after the body are not part of the frame.
pub open spec fn packet_from_bytes(b: Seq<u8>) -> Result<PacketView, FrameError> {
    match header_from_bytes(b) {
        Err(e) => Err(e),
        Ok(h) => if b.len() < 5 + h.body_size {
            Err(FrameError::ShortBody)
        } else {
            Ok(PacketView { header: h, body: b.subrange(5, 5 + h.body_size) })
        },
    }
}

/// The value of a decoding result.
pub open spec fn decoded_view(r: Result<Packet, FrameError>) -> Result<PacketView, FrameError> {
    match r {
        Ok(p) => Ok(p@),
        Err(e) => Err(e),
    }
}

impl Packet {
    /// The empty frame: the empty header and no body.
    pub fn init() -> (r: Packet)
        ensures
            r@ == (PacketView { header: empty_header(), body: Seq::empty() }),
    {
        Packet { header: PacketHeader::init(), body: Vec::new() }
    }

    /// The bytes of this frame: its header, then its body.
    pub fn seralize_packet_buf(&self) -> (r: Vec<u8>)
        ensures
            r@ == packet_bytes(self@),
    {
        let mut bytes = self.header.seralize_packet_header();
        let mut i: usize = 0;
        while i < self.body.len()
            invariant
                i <= self.body@.len(),
                bytes@ == header_bytes(self.header) + self.body@.subrange(0, i as int),
            decreases self.body@.len() - i,
        {
            bytes.push(self.body[i]);
            i += 1;
            assert(bytes@ =~= header_bytes(self.header) + self.body@.subrange(0, i as int));
        }
        assert(self.body@.subrange(0, i as int) =~= self.body@);
        bytes
    }
}

/// Reads the frame at the start of `stream`: a five-byte header, then exactly
/// as many body bytes as the header announces. A stream that ends before the
/// header or before the body is complete is an error, never a partial frame.
pub fn deserialize_packet(stream: &[u8]) -> (r: Result<Packet, FrameError>)
    ensures
        decoded_view(r) == packet_from_bytes(stream@),
{
    let header = match PacketHeader::deseralize_packet_header(stream) {
        Ok(h) => h,
        Err(e) => {
            return Err(e);
        },
    };
    let size = header.body_size as usize;
    if stream.len() - HEADER_LEN < size {
        return Err(FrameError::ShortBody);
    }
    let mut body: Vec<u8> = Vec::new();
    let mut i: usize = 0;
    while i < size
        invariant
            i <= size,
            HEADER_LEN + size <= stream@.len() <= usize::MAX,
            body@ == stream@.subrange(HEADER_LEN as int, HEADER_LEN + i),
        decreases size - i,
    {
        body.push(stream[HEADER_LEN + i]);
        i += 1;
        assert(body@ =~= stream@.subrange(HEADER_LEN as int, HEADER_LEN + i));
    }
    Ok(Packet { header, body })
}

/// Decoding the bytes of a well-formed frame gives back that frame.
pub proof fn lemma_packet_round_trip(p: PacketView)
    requires
        packet_well_formed(p),
    ensures
        packet_from_bytes(packet_bytes(p)) == Ok::<PacketView, FrameError>(p),
{
    let b = packet_bytes(p);
    let h = p.header;
    assert(b[0] == tag_of_flag(h.flag));
    assert(flag_of_tag(tag_of_flag(h.flag)) == h.flag);
    assert(b[2] + b[3] * 0x100 == h.body_size);
    assert(header_from_bytes(b) == Ok::<PacketHeader, FrameError>(h));
    assert(b.subrange(5, 5 + h.body_size) =~= p.body);
}

/// Fewer than five bytes never make a header, nor a frame.
pub proof fn lemma_short_input_rejected(b: Seq<u8>)
    requires
        b.len() < HEADER_LEN,
    ensures
        header_from_bytes(b) == Err::<PacketHeader, FrameError>(FrameError::ShortHeader),
        packet_from_bytes(b) == Err::<PacketView, FrameError>(FrameError::ShortHeader),
{
}

/// A header whose tag byte is not one of the four known kinds is read as a
/// `WARNING`, not rejected.
pub proof fn lemma_unknown_tag_reads_as_warning(b: Seq<u8>)
    requires
        b.len() >= HEADER_LEN,
        b[0] > 3,
    ensures
        header_from_bytes(b) is Ok,
        header_from_bytes(b)->Ok_0.flag == FlagState::WARNING,
{
}

} // verus!
