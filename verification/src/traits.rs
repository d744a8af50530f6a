//! Content type tags and the capabilities a payload codec offers: encoding
//! a typed value to a flat byte buffer and decoding it back.

use vstd::prelude::*;
use crate::errors::StegError;
use vstd::utf8::encode_utf8;

verus! {

/// The closed set of content kinds a frame can carry. The tag is stored as
/// exactly one byte in every frame; only these two values are valid.
#[derive(Debug, Clone, Copy, PartialEq, Eq, Structural)]
pub enum ContentType {
    Image,
    Audio,
}

/// ASCII lower-casing of one byte; other bytes are untouched.
pub open spec fn ascii_lower(b: u8) -> u8 {
    if 65 <= b && b <= 90 {
        (b + 32) as u8
    } else {
        b
    }
}

/// ASCII lower-casing of a byte sequence.
pub open spec fn lower_bytes(s: Seq<u8>) -> Seq<u8> {
    s.map_values(|b: u8| ascii_lower(b))
}

/// True when `suffix` closes `s`.
pub open spec fn has_suffix(s: Seq<u8>, suffix: Seq<u8>) -> bool {
    s.len() >= suffix.len() && s.subrange(s.len() - suffix.len(), s.len() as int) == suffix
}

/// True when `s` ends, ASCII-case-insensitively, in `suffix` (itself given
/// lower-case).
pub open spec fn has_suffix_ci(s: Seq<u8>, suffix: Seq<u8>) -> bool {
    has_suffix(lower_bytes(s), suffix)
}

/// The path suffixes that mark image content.
pub open spec fn image_suffixes() -> Seq<Seq<u8>> {
    seq![
        seq!['.' as u8, 'j' as u8, 'p' as u8, 'g' as u8],
        seq!['.' as u8, 'j' as u8, 'p' as u8, 'e' as u8, 'g' as u8],
        seq!['.' as u8, 'p' as u8, 'n' as u8, 'g' as u8],
    ]
}

/// The path suffixes that mark audio content.
pub open spec fn audio_suffixes() -> Seq<Seq<u8>> {
    seq![
        seq!['.' as u8, 'w' as u8, 'a' as u8, 'v' as u8],
        seq!['.' as u8, 'm' as u8, 'p' as u8, '3' as u8],
        seq!['.' as u8, 'f' as u8, 'l' as u8, 'a' as u8, 'c' as u8],
        seq!['.' as u8, 'o' as u8, 'g' as u8, 'g' as u8],
    ]
}

impl ContentType {
    /// The single byte that stands for this tag in a frame.
    pub open spec fn spec_to_u8(self) -> u8 {
        match self {
            ContentType::Image => 0,
            ContentType::Audio => 1,
        }
    }

    /// The tag a byte stands for; `None` for any byte outside the table.
    pub open spec fn spec_from_u8(value: u8) -> Option<ContentType> {
        if value == 0 {
            Some(ContentType::Image)
        } else if value == 1 {
            Some(ContentType::Audio)
        } else {
            None
        }
    }

    /// The tag's lower-case name.
    pub open spec fn spec_name(self) -> Seq<char> {
        match self {
            ContentType::Image => "image"@,
            ContentType::Audio => "audio"@,
        }
    }

    /// The default file extension for reconstructed content of this kind.
    pub open spec fn spec_file_extension(self) -> Seq<char> {
        match self {
            ContentType::Image => "png"@,
            ContentType::Audio => "mp3"@,
        }
    }

    /// The tag named by a path's suffix, matched ASCII-case-insensitively
    /// over the path's UTF-8 bytes.
    pub open spec fn spec_from_path(s: Seq<u8>) -> Option<ContentType> {
        if exists|i: int| 0 <= i < image_suffixes().len() && has_suffix_ci(s, image_suffixes()[i]) {
            Some(ContentType::Image)
        } else if exists|i: int|
            0 <= i < audio_suffixes().len() && has_suffix_ci(s, audio_suffixes()[i]) {
            Some(ContentType::Audio)
        } else {
            None
        }
    }

    pub fn from_u8(value: u8) -> (r: Option<Self>)
        ensures
            r == Self::spec_from_u8(value),
    {
        match value {
            0 => Some(ContentType::Image),
            1 => Some(ContentType::Audio),
            _ => None,
        }
    }

    pub fn to_u8(&self) -> (r: u8)
        ensures
            r == self.spec_to_u8(),
    {
        match self {
            ContentType::Image => 0,
            ContentType::Audio => 1,
        }
    }

    pub fn to_string(&self) -> (r: &'static str)
        ensures
            r@ == self.spec_name(),
    {
        match self {
            ContentType::Image => "image",
            ContentType::Audio => "audio",
        }
    }

    pub fn file_extension(&self) -> (r: &'static str)
        ensures
            r@ == self.spec_file_extension(),
    {
        match self {
            ContentType::Image => "png",
            ContentType::Audio => "mp3",
        }
    }

    /// The content type a path's extension suggests, matched without regard
    /// to ASCII case.
    pub fn from_path(path: &str) -> (r: Option<Self>)
        ensures
            r == Self::spec_from_path(encode_utf8(path@)),
    {
        let bytes = path.as_bytes();
        let jpg = make_suffix4('.', 'j', 'p', 'g');
        let png = make_suffix4('.', 'p', 'n', 'g');
        let wav = make_suffix4('.', 'w', 'a', 'v');
        let mp3 = make_suffix4('.', 'm', 'p', '3');
        let ogg = make_suffix4('.', 'o', 'g', 'g');
        let jpeg = make_suffix5('.', 'j', 'p', 'e', 'g');
        let flac = make_suffix5('.', 'f', 'l', 'a', 'c');
        proof {
            assert(image_suffixes()[0] == jpg@);
            assert(image_suffixes()[1] == jpeg@);
            assert(image_suffixes()[2] == png@);
            assert(audio_suffixes()[0] == wav@);
            assert(audio_suffixes()[1] == mp3@);
            assert(audio_suffixes()[2] == flac@);
            assert(audio_suffixes()[3] == ogg@);
        }
        let is_image = ends_with_ci(bytes, jpg.as_slice()) || ends_with_ci(
            bytes,
            jpeg.as_slice(),
        ) || ends_with_ci(bytes, png.as_slice());
        let is_audio = ends_with_ci(bytes, wav.as_slice()) || ends_with_ci(bytes, mp3.as_slice())
            || ends_with_ci(bytes, flac.as_slice()) || ends_with_ci(bytes, ogg.as_slice());
        proof {
            let s = encode_utf8(path@);
            if is_image {
                assert(exists|i: int|
                    0 <= i < image_suffixes().len() && has_suffix_ci(s, image_suffixes()[i])) by {
                    if has_suffix_ci(s, jpg@) {
                        assert(has_suffix_ci(s, image_suffixes()[0]));
                    } else if has_suffix_ci(s, jpeg@) {
                        assert(has_suffix_ci(s, image_suffixes()[1]));
                    } else {
                        assert(has_suffix_ci(s, image_suffixes()[2]));
                    }
                }
            } else {
                assert forall|i: int| 0 <= i < image_suffixes().len() implies !has_suffix_ci(
                    s,
                    image_suffixes()[i],
                ) by {
                    assert(i == 0 || i == 1 || i == 2);
                }
            }
            if is_audio {
                assert(exists|i: int|
                    0 <= i < audio_suffixes().len() && has_suffix_ci(s, audio_suffixes()[i])) by {
                    if has_suffix_ci(s, wav@) {
                        assert(has_suffix_ci(s, audio_suffixes()[0]));
                    } else if has_suffix_ci(s, mp3@) {
                        assert(has_suffix_ci(s, audio_suffixes()[1]));
                    } else if has_suffix_ci(s, flac@) {
                        assert(has_suffix_ci(s, audio_suffixes()[2]));
                    } else {
                        assert(has_suffix_ci(s, audio_suffixes()[3]));
                    }
                }
            } else {
                assert forall|i: int| 0 <= i < audio_suffixes().len() implies !has_suffix_ci(
                    s,
                    audio_suffixes()[i],
                ) by {
                    assert(i == 0 || i == 1 || i == 2 || i == 3);
                }
            }
        }
        if is_image {
            Some(ContentType::Image)
        } else if is_audio {
            Some(ContentType::Audio)
        } else {
            None
        }
    }
}

/// True when `bytes` ends in `suffix`, byte for byte.
pub(crate) fn ends_with(bytes: &[u8], suffix: &[u8]) -> (r: bool)
    ensures
        r == has_suffix(bytes@, suffix@),
{
    if suffix.len() > bytes.len() {
        return false;
    }
    let offset = bytes.len() - suffix.len();
    let n = suffix.len();
    for j in 0..n
        invariant
            n == suffix@.len(),
            n <= bytes@.len() <= usize::MAX,
            offset == bytes@.len() - n,
            forall|t: int| 0 <= t < j ==> bytes@[offset + t] == suffix@[t],
    {
        if bytes[offset + j] != suffix[j] {
            proof {
                assert(!has_suffix(bytes@, suffix@)) by {
                    if has_suffix(bytes@, suffix@) {
                        assert(bytes@.subrange(offset as int, bytes@.len() as int)[j as int]
                            == bytes@[offset + j]);
                    }
                }
            }
            return false;
        }
    }
    proof {
        assert(bytes@.subrange(offset as int, bytes@.len() as int) =~= suffix@);
    }
    true
}

/// A four-byte suffix from its characters, already lower-case ASCII.
pub(crate) fn make_suffix4(a: char, b: char, c: char, d: char) -> (r: Vec<u8>)
    requires
        a as u8 == ascii_lower(a as u8),
        b as u8 == ascii_lower(b as u8),
        c as u8 == ascii_lower(c as u8),
        d as u8 == ascii_lower(d as u8),
    ensures
        r@ == seq![a as u8, b as u8, c as u8, d as u8],
        lower_bytes(r@) == r@,
{
    let mut r: Vec<u8> = Vec::new();
    r.push(a as u8);
    r.push(b as u8);
    r.push(c as u8);
    r.push(d as u8);
    proof {
        assert(r@ =~= seq![a as u8, b as u8, c as u8, d as u8]);
        assert(lower_bytes(r@) =~= r@);
    }
    r
}

/// A five-byte suffix from its characters, already lower-case ASCII.
fn make_suffix5(a: char, b: char, c: char, d: char, e: char) -> (r: Vec<u8>)
    requires
        a as u8 == ascii_lower(a as u8),
        b as u8 == ascii_lower(b as u8),
        c as u8 == ascii_lower(c as u8),
        d as u8 == ascii_lower(d as u8),
        e as u8 == ascii_lower(e as u8),
    ensures
        r@ == seq![a as u8, b as u8, c as u8, d as u8, e as u8],
        lower_bytes(r@) == r@,
{
    let mut r: Vec<u8> = Vec::new();
    r.push(a as u8);
    r.push(b as u8);
    r.push(c as u8);
    r.push(d as u8);
    r.push(e as u8);
    proof {
        assert(r@ =~= seq![a as u8, b as u8, c as u8, d as u8, e as u8]);
        assert(lower_bytes(r@) =~= r@);
    }
    r
}

/// ASCII lower-casing of one byte.
fn to_ascii_lower(b: u8) -> (r: u8)
    ensures
        r == ascii_lower(b),
{
    if 65 <= b && b <= 90 {
        b + 32
    } else {
        b
    }
}

/// True when `bytes` ends, ASCII-case-insensitively, in `suffix` (itself
/// already lower-case).
fn ends_with_ci(bytes: &[u8], suffix: &[u8]) -> (r: bool)
    requires
        lower_bytes(suffix@) == suffix@,
    ensures
        r == has_suffix_ci(bytes@, suffix@),
{
    if suffix.len() > bytes.len() {
        assert(!has_suffix_ci(bytes@, suffix@));
        return false;
    }
    let offset = bytes.len() - suffix.len();
    let n = suffix.len();
    for j in 0..n
        invariant
            n == suffix@.len(),
            n <= bytes@.len() <= usize::MAX,
            offset == bytes@.len() - n,
            lower_bytes(suffix@) == suffix@,
            forall|t: int|
                0 <= t < j ==> lower_bytes(bytes@)[offset + t] == lower_bytes(suffix@)[t],
    {
        if to_ascii_lower(bytes[offset + j]) != suffix[j] {
            proof {
                assert(lower_bytes(bytes@)[offset + j] != lower_bytes(suffix@)[j as int]);
                assert(!has_suffix_ci(bytes@, suffix@)) by {
                    if has_suffix(lower_bytes(bytes@), suffix@) {
                        assert(lower_bytes(bytes@).subrange(
                            offset as int,
                            lower_bytes(bytes@).len() as int,
                        )[j as int] == lower_bytes(bytes@)[offset + j]);
                    }
                }
            }
            return false;
        }
    }
    proof {
        assert(lower_bytes(bytes@).subrange(offset as int, lower_bytes(bytes@).len() as int)
            =~= lower_bytes(suffix@));
    }
    true
}

/// The capability of a typed payload to serialize itself into the flat byte
/// buffer that a frame carries.
pub trait Encodable {
    /// Well-formedness a value must have before it can be serialized, such
    /// as fields small enough for the format's fixed-width headers.
    spec fn wf(&self) -> bool;

    /// The exact byte buffer the value serializes to.
    spec fn encoded(&self) -> Seq<u8>;

    /// The content type tag of the value.
    spec fn ctype(&self) -> ContentType;

    /// Serializes the value.
    fn to_bytes(&self) -> (r: Vec<u8>)
        requires
            self.wf(),
        ensures
            r@ == self.encoded(),
    ;

    /// The content type tag of the value.
    fn content_type(&self) -> (r: ContentType)
        ensures
            r == self.ctype(),
    ;

    /// The metadata written ahead of the payload: the one-byte tag.
    fn metadata(&self) -> (r: Vec<u8>)
        ensures
            r@ == seq![self.ctype().spec_to_u8()],
    ;
}

/// The capability of a typed payload to reconstruct itself from the flat
/// byte buffer a frame carried.
pub trait Decodable: Sized {
    /// True exactly of the buffers this codec accepts.
    spec fn decode_ok(data: Seq<u8>) -> bool;

    /// The error reported for a buffer the codec rejects.
    spec fn decode_err(data: Seq<u8>) -> StegError;

    /// The relation between an accepted buffer and the value it decodes to;
    /// it pins every observable field of the value.
    spec fn decodes_to(data: Seq<u8>, v: Self) -> bool;

    /// Reconstructs a value from a buffer.
    fn from_bytes(data: &[u8]) -> (r: Result<Self, StegError>)
        ensures
            r is Ok <==> Self::decode_ok(data@),
            r matches Ok(v) ==> Self::decodes_to(data@, v),
            r matches Err(e) ==> e == Self::decode_err(data@),
    ;
}

} // verus!
