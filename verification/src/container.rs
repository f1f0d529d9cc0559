use vstd::prelude::*;

use crate::errors::ScelError;
use crate::textenc::decode_utf16le;
use crate::textenc::utf16le_decode;

verus! {

/// Offset where the UTF-16LE dictionary name begins.
pub const NAME_START: usize = 0x130;
/// Offset one past the end of the dictionary name.
pub const NAME_END: usize = 0x338;
/// Offset where the UTF-16LE dictionary category begins.
pub const TYPE_START: usize = 0x338;
/// Offset one past the end of the dictionary category.
pub const TYPE_END: usize = 0x540;
/// Offset where the UTF-16LE dictionary description begins.
pub const INFO_START: usize = 0x540;
/// Offset one past the end of the dictionary description.
pub const INFO_END: usize = 0xd40;
/// Offset where the UTF-16LE dictionary sample text begins.
pub const EXAMPLE_START: usize = 0xd40;
/// Offset one past the end of the dictionary sample text.
pub const EXAMPLE_END: usize = 0x1540;
/// Offset where the phonetic-symbol section begins.
pub const PINYIN_OFFSET: usize = 0x1540;
/// Offset where the word section begins; also the least length a container
/// may have.
pub const WORDS_OFFSET: usize = 0x2628;

/// The fixed 12-byte magic signature that opens every container of the
/// supported format version.
pub open spec fn magic() -> Seq<u8> {
    seq![
        0x40u8,
        0x15u8,
        0x00u8,
        0x00u8,
        0x44u8,
        0x43u8,
        0x53u8,
        0x01u8,
        0x01u8,
        0x00u8,
        0x00u8,
        0x00u8,
    ]
}

/// A metadata range decodes to exactly the text that strict UTF-16LE decoding
/// of its bytes gives, and fails exactly when those bytes are not well-formed
/// UTF-16LE.
pub open spec fn metadata_text_ok(range: Seq<u8>, r: Result<String, ScelError>) -> bool {
    match r {
        Ok(s) => utf16le_decode(range) == Some(s@),
        Err(e) => e == ScelError::EncodingError && utf16le_decode(range) is None,
    }
}

/// A raw byte sequence validates as a container when it is long enough to
/// hold the whole fixed layout and opens with the magic signature.
pub open spec fn validates(d: Seq<u8>) -> bool {
    d.len() >= WORDS_OFFSET && d.subrange(0, 12) == magic()
}

/// A validated container: owns the raw bytes and the two fixed section
/// offsets, and exposes the fixed-offset byte ranges as borrowed views.
pub struct InputFileBuff {
    pub content: Vec<u8>,
    pub pinyin_offset: usize,
    pub words_offset: usize,
}

impl View for InputFileBuff {
    type V = Seq<u8>;

    open spec fn view(&self) -> Seq<u8> {
        self.content@
    }
}

impl InputFileBuff {
    /// Well-formedness: the constructor establishes it, every method keeps it.
    pub open spec fn wf(&self) -> bool {
        &&& validates(self.content@)
        &&& self.pinyin_offset == PINYIN_OFFSET
        &&& self.words_offset == WORDS_OFFSET
    }

    /// Validate a raw buffer: it must hold at least the fixed layout and open
    /// with the magic signature; anything else is a malformed container.
    pub fn new(content: Vec<u8>) -> (r: Result<InputFileBuff, ScelError>)
        ensures
            match r {
                Ok(b) => validates(content@) && b.wf() && b@ == content@,
                Err(e) => e == ScelError::MalformedContainer && !validates(content@),
            },
    {
        if content.len() < WORDS_OFFSET {
            return Err(ScelError::MalformedContainer);
        }
        if !has_magic(&content) {
            return Err(ScelError::MalformedContainer);
        }
        Ok(InputFileBuff { content, pinyin_offset: PINYIN_OFFSET, words_offset: WORDS_OFFSET })
    }

    /// The UTF-16LE bytes of the dictionary name.
    pub fn get_name(&self) -> (r: &[u8])
        requires
            self.wf(),
        ensures
            r@ == self@.subrange(NAME_START as int, NAME_END as int),
    {
        vstd::slice::slice_subrange(self.content.as_slice(), NAME_START, NAME_END)
    }

    /// The UTF-16LE bytes of the dictionary category.
    pub fn get_type(&self) -> (r: &[u8])
        requires
            self.wf(),
        ensures
            r@ == self@.subrange(TYPE_START as int, TYPE_END as int),
    {
        vstd::slice::slice_subrange(self.content.as_slice(), TYPE_START, TYPE_END)
    }

    /// The UTF-16LE bytes of the dictionary description.
    pub fn get_info(&self) -> (r: &[u8])
        requires
            self.wf(),
        ensures
            r@ == self@.subrange(INFO_START as int, INFO_END as int),
    {
        vstd::slice::slice_subrange(self.content.as_slice(), INFO_START, INFO_END)
    }

    /// The UTF-16LE bytes of the dictionary sample text.
    pub fn get_example(&self) -> (r: &[u8])
        requires
            self.wf(),
        ensures
            r@ == self@.subrange(EXAMPLE_START as int, EXAMPLE_END as int),
    {
        vstd::slice::slice_subrange(self.content.as_slice(), EXAMPLE_START, EXAMPLE_END)
    }

    /// The dictionary name, decoded from its UTF-16LE metadata range.
    pub fn name_text(&self) -> (r: Result<String, ScelError>)
        requires
            self.wf(),
        ensures
            metadata_text_ok(self@.subrange(NAME_START as int, NAME_END as int), r),
    {
        decode_utf16le(self.get_name())
    }

    /// The dictionary category, decoded from its UTF-16LE metadata range.
    pub fn type_text(&self) -> (r: Result<String, ScelError>)
        requires
            self.wf(),
        ensures
            metadata_text_ok(self@.subrange(TYPE_START as int, TYPE_END as int), r),
    {
        decode_utf16le(self.get_type())
    }

    /// The dictionary description, decoded from its UTF-16LE metadata range.
    pub fn info_text(&self) -> (r: Result<String, ScelError>)
        requires
            self.wf(),
        ensures
            metadata_text_ok(self@.subrange(INFO_START as int, INFO_END as int), r),
    {
        decode_utf16le(self.get_info())
    }

    /// The dictionary sample text, decoded from its UTF-16LE metadata range.
    pub fn example_text(&self) -> (r: Result<String, ScelError>)
        requires
            self.wf(),
        ensures
            metadata_text_ok(self@.subrange(EXAMPLE_START as int, EXAMPLE_END as int), r),
    {
        decode_utf16le(self.get_example())
    }

    /// The bytes of the phonetic-symbol section.
    pub fn get_pinyin_range(&self) -> (r: &[u8])
        requires
            self.wf(),
        ensures
            r@ == self@.subrange(PINYIN_OFFSET as int, WORDS_OFFSET as int),
    {
        vstd::slice::slice_subrange(self.content.as_slice(), self.pinyin_offset, self.words_offset)
    }

    /// The bytes of the word section: everything from its fixed offset to the
    /// end of the container.
    pub fn get_word_range(&self) -> (r: &[u8])
        requires
            self.wf(),
        ensures
            r@ == self@.subrange(WORDS_OFFSET as int, self@.len() as int),
    {
        vstd::slice::slice_subrange(self.content.as_slice(), self.words_offset, self.content.len())
    }
}

/// Build the magic signature as runnable bytes.
fn magic_bytes() -> (m: Vec<u8>)
    ensures
        m@ == magic(),
{
    let mut m: Vec<u8> = Vec::new();
    m.push(0x40);
    m.push(0x15);
    m.push(0x00);
    m.push(0x00);
    m.push(0x44);
    m.push(0x43);
    m.push(0x53);
    m.push(0x01);
    m.push(0x01);
    m.push(0x00);
    m.push(0x00);
    m.push(0x00);
    proof {
        assert(m@ =~= magic());
    }
    m
}

/// Do the first 12 bytes of `content` equal the magic signature?
fn has_magic(content: &Vec<u8>) -> (r: bool)
    requires
        content@.len() >= 12,
    ensures
        r == (content@.subrange(0, 12) == magic()),
{
    let m = magic_bytes();
    let mut i: usize = 0;
    while i < 12
        invariant
            0 <= i <= 12,
            m@ == magic(),
            content@.len() >= 12,
            forall|j: int| 0 <= j < i ==> content@[j] == magic()[j],
        decreases 12 - i,
    {
        if content[i] != m[i] {
            proof {
                assert(content@.subrange(0, 12)[i as int] != magic()[i as int]);
            }
            return false;
        }
        i += 1;
    }
    proof {
        assert(content@.subrange(0, 12) =~= magic());
    }
    true
}

} // verus!
