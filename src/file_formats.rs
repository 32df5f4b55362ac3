//! The file formats found in the archive, and the classification of a buffer
//! by its leading signature.

use vstd::prelude::*;

pub mod bitmap;
pub mod btp;
pub mod bytes;
pub mod gfxm;
pub mod gt;
pub mod idx;
pub mod modl;

verus! {

/// The kinds of data that a buffer may hold, told apart by their signature.
#[derive(Debug, PartialEq, Eq, Structural, Clone, Copy)]
pub enum Format {
    Btp,
    Bitmap,
    Gfxm,
    GT20,
    Unknown,
}

/// Why a fixed-size header could not be read.
#[derive(Debug, PartialEq, Eq, Structural, Clone, Copy)]
pub enum HeaderError {
    /// The buffer does not begin with the format's signature.
    BadSignature,
    /// The buffer ends before the header does.
    Truncated,
}

/// The format of a buffer: the signatures are tried in a fixed order, and the
/// first that the buffer begins with decides.
pub open spec fn format_of(s: Seq<u8>) -> Format {
    if bytes::starts_with(s, btp::btp_magic()) {
        Format::Btp
    } else if bytes::starts_with(s, bitmap::bitmap_magic()) {
        Format::Bitmap
    } else if bytes::starts_with(s, gfxm::gfxm_magic()) {
        Format::Gfxm
    } else if bytes::starts_with(s, gt::gt_magic()) {
        Format::GT20
    } else {
        Format::Unknown
    }
}

/// The file extension under which data of a format is stored.
pub open spec fn extension_of(f: Format) -> Seq<char> {
    match f {
        Format::Btp => "btp"@,
        Format::Bitmap => "bmp"@,
        Format::Gfxm => "gfxm"@,
        Format::GT20 => "gt20"@,
        Format::Unknown => ""@,
    }
}

impl Format {
    /// The file extension of the format; empty for unknown data.
    pub fn to_string(&self) -> (r: String)
        ensures
            r@ == extension_of(*self),
    {
        let s: &str = match self {
            Format::Btp => "btp",
            Format::Bitmap => "bmp",
            Format::Gfxm => "gfxm",
            Format::GT20 => "gt20",
            Format::Unknown => "",
        };
        proof {
            reveal_strlit("btp");
            reveal_strlit("bmp");
            reveal_strlit("gfxm");
            reveal_strlit("gt20");
            reveal_strlit("");
        }
        s.to_string()
    }
}

/// Classifies a buffer by the first signature, in priority order, that it
/// begins with.
pub fn identify_format(input: &[u8]) -> (r: Format)
    ensures
        r == format_of(input@),
{
    if btp::parse_magic(input) {
        return Format::Btp;
    }
    if bitmap::parse_magic(input) {
        return Format::Bitmap;
    }
    if gfxm::parse_magic(input) {
        return Format::Gfxm;
    }
    if gt::parse_magic(input) {
        return Format::GT20;
    }
    Format::Unknown
}

/// Once a buffer is recognised, bytes appended to it never change its format:
/// the classification rests on the signatures and their order alone, never on
/// the buffer's length.
pub proof fn lemma_format_of_extension(a: Seq<u8>, b: Seq<u8>)
    requires
        a.len() <= b.len(),
        b.subrange(0, a.len() as int) == a,
        format_of(a) != Format::Unknown,
    ensures
        format_of(b) == format_of(a),
{
    let m1 = btp::btp_magic();
    let m2 = bitmap::bitmap_magic();
    let m3 = gfxm::gfxm_magic();
    let m4 = gt::gt_magic();
    assert forall|m: Seq<u8>| #[trigger] bytes::starts_with(a, m) implies bytes::starts_with(b, m) by {
        assert(b.subrange(0, m.len() as int) =~= a.subrange(0, m.len() as int));
    }
    assert(a.len() >= 2);
    assert(a[0] == b[0] && a[1] == b[1]) by {
        assert(b.subrange(0, a.len() as int)[0] == b[0]);
        assert(b.subrange(0, a.len() as int)[1] == b[1]);
    }
    if bytes::starts_with(b, m1) {
        assert(b.subrange(0, 4)[1] == b[1]);
    }
    if bytes::starts_with(b, m2) {
        assert(b.subrange(0, 2)[0] == b[0]);
    }
    if bytes::starts_with(b, m3) {
        assert(b.subrange(0, 4)[0] == b[0] && b.subrange(0, 4)[1] == b[1]);
    }
    if bytes::starts_with(a, m1) {
        assert(a.subrange(0, 4)[1] == a[1]);
    }
    if bytes::starts_with(a, m2) {
        assert(a.subrange(0, 2)[0] == a[0] && a.subrange(0, 2)[1] == a[1]);
    }
    if bytes::starts_with(a, m3) {
        assert(a.subrange(0, 4)[0] == a[0] && a.subrange(0, 4)[1] == a[1]);
    }
    if bytes::starts_with(a, m4) {
        assert(a.subrange(0, 4)[0] == a[0] && a.subrange(0, 4)[1] == a[1]);
    }
}

} // verus!
