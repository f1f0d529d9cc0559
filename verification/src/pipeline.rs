use vstd::prelude::*;
use vstd::string::StringExecFns;

use crate::container::InputFileBuff;
use crate::container::PINYIN_OFFSET;
use crate::container::WORDS_OFFSET;
use crate::container::validates;
use crate::emit::emit_dict;
use crate::emit::emit_spec;
use crate::errors::ScelError;
use crate::pinyin::get_pinyin_table;
use crate::pinyin::parse_symbol_table;
use crate::words::get_word_list;
use crate::words::parse_groups;

verus! {

/// The symbol-table position whose decoded value is the format's well-known
/// sanity checksum.
pub const ZHUANG_INDEX: usize = 0x191;

/// What the whole pipeline yields on raw container bytes: validate the
/// container, decode both sections, check the format's sanity checksum, and
/// emit the output text as UTF-8 bytes.
pub open spec fn convert_spec(d: Seq<u8>) -> Result<Seq<u8>, ScelError> {
    if !validates(d) {
        Err(ScelError::MalformedContainer)
    } else {
        match parse_symbol_table(d.subrange(PINYIN_OFFSET as int, WORDS_OFFSET as int)) {
            Err(e) => Err(e),
            Ok(t) => match parse_groups(d.subrange(WORDS_OFFSET as int, d.len() as int), 0) {
                Err(e) => Err(e),
                Ok(es) => {
                    if !(t.len() > ZHUANG_INDEX && t[ZHUANG_INDEX as int] == "zhuang"@) {
                        Err(ScelError::MalformedSection)
                    } else {
                        emit_spec(t, es)
                    }
                },
            },
        }
    }
}

/// Law: whenever the pipeline succeeds, the decoded symbol table holds the
/// string "zhuang" at position 0x191 — the format's de-facto sanity checksum.
pub proof fn lemma_zhuang(d: Seq<u8>)
    requires
        convert_spec(d) is Ok,
    ensures
        match parse_symbol_table(d.subrange(PINYIN_OFFSET as int, WORDS_OFFSET as int)) {
            Ok(t) => t.len() > ZHUANG_INDEX && t[ZHUANG_INDEX as int] == "zhuang"@,
            Err(_) => false,
        },
{
}

/// Law: the pipeline is a function of the input bytes alone, so running
/// decode and emit twice on the same byte buffer yields byte-identical
/// output: any two results that satisfy the pipeline's contract on the same
/// input are equal.
pub proof fn lemma_convert_deterministic(
    d: Seq<u8>,
    r1: Result<Seq<u8>, ScelError>,
    r2: Result<Seq<u8>, ScelError>,
)
    requires
        r1 == convert_spec(d),
        r2 == convert_spec(d),
    ensures
        r1 == r2,
{
}

/// Run the decode-and-emit pipeline on an already-validated container.
pub fn convert_buff(buff: &InputFileBuff) -> (r: Result<Vec<u8>, ScelError>)
    requires
        buff.wf(),
    ensures
        match r {
            Ok(v) => convert_spec(buff@) == Ok::<_, ScelError>(v@),
            Err(e) => convert_spec(buff@) == Err::<Seq<u8>, _>(e),
        },
{
    let table = match get_pinyin_table(buff.get_pinyin_range()) {
        Ok(t) => t,
        Err(e) => {
            return Err(e);
        },
    };
    let entries = match get_word_list(buff.get_word_range()) {
        Ok(es) => es,
        Err(e) => {
            return Err(e);
        },
    };
    let zhuang = String::from_str("zhuang");
    if table.len() <= ZHUANG_INDEX {
        return Err(ScelError::MalformedSection);
    }
    let probe = &table[ZHUANG_INDEX];
    if !probe.eq(&zhuang) {
        proof {
            assert(table.deep_view()[ZHUANG_INDEX as int] == probe@);
        }
        return Err(ScelError::MalformedSection);
    }
    proof {
        assert(table.deep_view()[ZHUANG_INDEX as int] == probe@);
    }
    emit_dict(&table, &entries)
}

/// Run the whole pipeline on raw container bytes.
pub fn convert(data: Vec<u8>) -> (r: Result<Vec<u8>, ScelError>)
    ensures
        match r {
            Ok(v) => convert_spec(data@) == Ok::<_, ScelError>(v@),
            Err(e) => convert_spec(data@) == Err::<Seq<u8>, _>(e),
        },
{
    match InputFileBuff::new(data) {
        Ok(b) => convert_buff(&b),
        Err(e) => Err(e),
    }
}

} // verus!
