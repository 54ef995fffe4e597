//! Header decoding for cartridge-image files, and the record types that
//! the catalog and the resolver share.

use vstd::prelude::*;
use crate::common::{FileType, Region};
use crate::hex::{hex_string_of, is_upper_hex_char, lemma_hex_string_shape, format_u8_to_hex_string};

verus! {

/// Length of the header prefix the decoder needs: the end of the larger of
/// the two identifier windows.
pub const HEADER_LEN: usize = 0x3a50;

pub const START_FILE_TYPE_NCSD: usize = 0x100;

pub const START_TITLE_ID_NCSD: usize = 0x108;

pub const START_FILE_TYPE_NCCH: usize = 0x3a40;

pub const START_TITLE_ID_NCCH: usize = 0x3a48;

/// One catalog row: a released variant of a title.
#[derive(Debug)]
pub struct N3DSGameMetadata {
    pub name: String,
    pub region: Region,
    pub title_id: String,
}

/// Mathematical shape of a catalog record.
#[verifier::ext_equal]
pub ghost struct MetaView {
    pub name: Seq<char>,
    pub region: Region,
    pub title_id: Seq<char>,
}

impl View for N3DSGameMetadata {
    type V = MetaView;

    open spec fn view(&self) -> MetaView {
        MetaView { name: self.name@, region: self.region, title_id: self.title_id@ }
    }
}

impl Clone for N3DSGameMetadata {
    fn clone(&self) -> (r: Self)
        ensures
            r == *self,
    {
        N3DSGameMetadata {
            name: self.name.clone(),
            region: self.region,
            title_id: self.title_id.clone(),
        }
    }
}

/// The views of a record sequence, in order.
pub open spec fn metas_view(s: Seq<N3DSGameMetadata>) -> Seq<MetaView> {
    s.map_values(|m: N3DSGameMetadata| m@)
}

/// What the decoder extracts from one file's header.
#[derive(Debug)]
pub struct N3DSHeaderInfo {
    pub title_id: String,
    pub file_type: FileType,
}

/// Mathematical shape of a decoded header.
#[verifier::ext_equal]
pub ghost struct HeaderInfoView {
    pub title_id: Seq<char>,
    pub file_type: FileType,
}

impl View for N3DSHeaderInfo {
    type V = HeaderInfoView;

    open spec fn view(&self) -> HeaderInfoView {
        HeaderInfoView { title_id: self.title_id@, file_type: self.file_type }
    }
}

/// One input file: its original name and what its header decoded to.
pub struct N3DSGame {
    pub orig_name: String,
    pub header_info: N3DSHeaderInfo,
}

/// Why a header could not be decoded.
#[derive(PartialEq, Eq, Structural, Clone, Copy, Debug)]
pub enum DecodeError {
    /// The buffer is shorter than the header region the decoder reads.
    Truncated,
    /// Neither magic tag was found at its fixed offset.
    UnrecognizedFormat,
}

/// True when the four magic bytes of the NCSD layout stand at their fixed
/// offset.
pub open spec fn is_ncsd_header(bytes: Seq<u8>) -> bool {
    &&& bytes[0x100] == ('N' as u8)
    &&& bytes[0x101] == ('C' as u8)
    &&& bytes[0x102] == ('S' as u8)
    &&& bytes[0x103] == ('D' as u8)
}

/// True when the four magic bytes of the NCCH layout stand at their fixed
/// offset.
pub open spec fn is_ncch_header(bytes: Seq<u8>) -> bool {
    &&& bytes[0x3a40] == ('N' as u8)
    &&& bytes[0x3a41] == ('C' as u8)
    &&& bytes[0x3a42] == ('C' as u8)
    &&& bytes[0x3a43] == ('H' as u8)
}

/// The `len` bytes starting at `start`, in reverse order.
pub open spec fn reversed_window(bytes: Seq<u8>, start: int, len: int) -> Seq<u8> {
    Seq::new(len as nat, |i: int| bytes[start + len - 1 - i])
}

/// What decoding a byte buffer yields: the container format named by the
/// magic tag found first (NCSD before NCCH), and the canonical identifier
/// read from that format's window, reversed and hex-rendered.
pub open spec fn decode_spec(bytes: Seq<u8>) -> Result<HeaderInfoView, DecodeError> {
    if bytes.len() < HEADER_LEN as int {
        Err(DecodeError::Truncated)
    } else if is_ncsd_header(bytes) {
        Ok(
            HeaderInfoView {
                title_id: hex_string_of(
                    reversed_window(bytes, START_TITLE_ID_NCSD as int, 8),
                ),
                file_type: FileType::NCSD,
            },
        )
    } else if is_ncch_header(bytes) {
        Ok(
            HeaderInfoView {
                title_id: hex_string_of(
                    reversed_window(bytes, START_TITLE_ID_NCCH as int, 8),
                ),
                file_type: FileType::NCCH,
            },
        )
    } else {
        Err(DecodeError::UnrecognizedFormat)
    }
}

/// Copies the eight identifier bytes at `start` in reverse order and
/// renders them as uppercase hex.
fn extract_reversed_id(buffer: &[u8], start: usize) -> (r: String)
    requires
        start + 8 <= buffer@.len(),
    ensures
        r@ == hex_string_of(reversed_window(buffer@, start as int, 8)),
{
    let n = buffer.len();
    let mut bytes: Vec<u8> = Vec::new();
    let mut i: usize = 0;
    while i < 8
        invariant
            i <= 8,
            n == buffer@.len(),
            start + 8 <= n,
            bytes@.len() == i,
            forall|k: int| 0 <= k < i ==> bytes@[k] == buffer@[start + 7 - k],
        decreases 8 - i,
    {
        bytes.push(buffer[start + 7 - i]);
        i = i + 1;
    }
    proof {
        assert(bytes@ =~= reversed_window(buffer@, start as int, 8));
    }
    format_u8_to_hex_string(bytes)
}

/// Classifies a header buffer and extracts its title identifier: the NCSD
/// magic at its fixed offset wins, the NCCH magic is tried second, a buffer
/// shorter than the header region is rejected before any read.
pub fn read_header_info_3ds(buffer: &[u8]) -> (r: Result<N3DSHeaderInfo, DecodeError>)
    ensures
        match r {
            Ok(h) => decode_spec(buffer@) == Ok::<HeaderInfoView, DecodeError>(h@),
            Err(e) => decode_spec(buffer@) == Err::<HeaderInfoView, DecodeError>(e),
        },
{
    if buffer.len() < HEADER_LEN {
        return Err(DecodeError::Truncated);
    }
    if buffer[START_FILE_TYPE_NCSD] == ('N' as u8) && buffer[START_FILE_TYPE_NCSD + 1] == ('C' as u8)
        && buffer[START_FILE_TYPE_NCSD + 2] == ('S' as u8) && buffer[START_FILE_TYPE_NCSD + 3] == ('D' as u8) {
        let title_id = extract_reversed_id(buffer, START_TITLE_ID_NCSD);
        Ok(N3DSHeaderInfo { title_id, file_type: FileType::NCSD })
    } else if buffer[START_FILE_TYPE_NCCH] == ('N' as u8) && buffer[START_FILE_TYPE_NCCH + 1] == ('C' as u8)
        && buffer[START_FILE_TYPE_NCCH + 2] == ('C' as u8) && buffer[START_FILE_TYPE_NCCH + 3] == ('H' as u8) {
        let title_id = extract_reversed_id(buffer, START_TITLE_ID_NCCH);
        Ok(N3DSHeaderInfo { title_id, file_type: FileType::NCCH })
    } else {
        Err(DecodeError::UnrecognizedFormat)
    }
}

/// A valid NCSD header decodes to exactly the eight identifier bytes of
/// its window, reversed and hex-rendered, with the identifier in canonical
/// shape: sixteen uppercase hex characters.
pub proof fn lemma_decode_ncsd(bytes: Seq<u8>)
    requires
        bytes.len() >= HEADER_LEN as int,
        is_ncsd_header(bytes),
    ensures
        decode_spec(bytes) == Ok::<HeaderInfoView, DecodeError>(
            HeaderInfoView {
                title_id: hex_string_of(reversed_window(bytes, START_TITLE_ID_NCSD as int, 8)),
                file_type: FileType::NCSD,
            },
        ),
        decode_spec(bytes)->Ok_0.title_id.len() == 16,
        forall|i: int|
            0 <= i < 16 ==> is_upper_hex_char(#[trigger] decode_spec(bytes)->Ok_0.title_id[i]),
{
    lemma_hex_string_shape(reversed_window(bytes, START_TITLE_ID_NCSD as int, 8));
}

/// A valid NCCH header, without an NCSD magic, decodes to the eight
/// identifier bytes of the NCCH window, reversed and hex-rendered, with
/// the identifier in canonical shape.
pub proof fn lemma_decode_ncch(bytes: Seq<u8>)
    requires
        bytes.len() >= HEADER_LEN as int,
        !is_ncsd_header(bytes),
        is_ncch_header(bytes),
    ensures
        decode_spec(bytes) == Ok::<HeaderInfoView, DecodeError>(
            HeaderInfoView {
                title_id: hex_string_of(reversed_window(bytes, START_TITLE_ID_NCCH as int, 8)),
                file_type: FileType::NCCH,
            },
        ),
        decode_spec(bytes)->Ok_0.title_id.len() == 16,
        forall|i: int|
            0 <= i < 16 ==> is_upper_hex_char(#[trigger] decode_spec(bytes)->Ok_0.title_id[i]),
{
    lemma_hex_string_shape(reversed_window(bytes, START_TITLE_ID_NCCH as int, 8));
}

/// When both magic tags are present, NCSD detection takes precedence.
pub proof fn lemma_decode_prefers_ncsd(bytes: Seq<u8>)
    requires
        bytes.len() >= HEADER_LEN as int,
        is_ncsd_header(bytes),
        is_ncch_header(bytes),
    ensures
        decode_spec(bytes)->Ok_0.file_type == FileType::NCSD,
{
}

/// A buffer shorter than the header region always decodes to `Truncated`.
pub proof fn lemma_decode_truncated(bytes: Seq<u8>)
    requires
        bytes.len() < HEADER_LEN as int,
    ensures
        decode_spec(bytes) == Err::<HeaderInfoView, DecodeError>(DecodeError::Truncated),
{
}

/// Decoding reads nothing outside the two header windows: two buffers that
/// agree on them decode alike, whatever the surrounding bytes hold.
pub proof fn lemma_decode_windows_only(b1: Seq<u8>, b2: Seq<u8>)
    requires
        b1.len() >= HEADER_LEN as int,
        b2.len() >= HEADER_LEN as int,
        b1.subrange(
            START_FILE_TYPE_NCSD as int,
            START_TITLE_ID_NCSD as int + 8,
        ) == b2.subrange(START_FILE_TYPE_NCSD as int, START_TITLE_ID_NCSD as int + 8),
        b1.subrange(
            START_FILE_TYPE_NCCH as int,
            START_TITLE_ID_NCCH as int + 8,
        ) == b2.subrange(START_FILE_TYPE_NCCH as int, START_TITLE_ID_NCCH as int + 8),
    ensures
        decode_spec(b1) == decode_spec(b2),
{
    let lo1 = START_FILE_TYPE_NCSD as int;
    let hi1 = START_TITLE_ID_NCSD as int + 8;
    let lo2 = START_FILE_TYPE_NCCH as int;
    let hi2 = START_TITLE_ID_NCCH as int + 8;
    assert forall|i: int| lo1 <= i < hi1 implies b1[i] == b2[i] by {
        assert(b1.subrange(lo1, hi1)[i - lo1] == b1[i]);
        assert(b2.subrange(lo1, hi1)[i - lo1] == b2[i]);
    }
    assert forall|i: int| lo2 <= i < hi2 implies b1[i] == b2[i] by {
        assert(b1.subrange(lo2, hi2)[i - lo2] == b1[i]);
        assert(b2.subrange(lo2, hi2)[i - lo2] == b2[i]);
    }
    assert(reversed_window(b1, START_TITLE_ID_NCSD as int, 8) =~= reversed_window(
        b2,
        START_TITLE_ID_NCSD as int,
        8,
    ));
    assert(reversed_window(b1, START_TITLE_ID_NCCH as int, 8) =~= reversed_window(
        b2,
        START_TITLE_ID_NCCH as int,
        8,
    ));
}

} // verus!
