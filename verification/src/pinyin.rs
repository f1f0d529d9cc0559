use vstd::prelude::*;

use crate::byteread::read_u16_le;
use crate::byteread::u16_le_at;
use crate::errors::ScelError;
use crate::textenc::decode_utf16le;
use crate::textenc::utf16le_decode;

verus! {

/// The 4-byte section-type signature that opens the phonetic-symbol section.
pub open spec fn section_magic() -> Seq<u8> {
    seq![0x9du8, 0x01u8, 0x00u8, 0x00u8]
}

/// Parse the symbol records from byte offset `pos` to the end of the section:
/// each record is a 16-bit presence marker, a 16-bit byte length, and that
/// many bytes of UTF-16LE text. Reaching the end exactly at a record boundary
/// ends the parse; running out of bytes anywhere else is a truncation.
pub open spec fn parse_symbols_from(s: Seq<u8>, pos: int) -> Result<Seq<Seq<char>>, ScelError>
    recommends
        0 <= pos <= s.len(),
    decreases s.len() - pos when 0 <= pos <= s.len()
{
    if pos == s.len() {
        Ok(Seq::empty())
    } else if pos + 4 > s.len() {
        Err(ScelError::TruncatedSection)
    } else {
        let l = u16_le_at(s, pos + 2) as int;
        if pos + 4 + l > s.len() {
            Err(ScelError::TruncatedSection)
        } else {
            match utf16le_decode(s.subrange(pos + 4, pos + 4 + l)) {
                None => Err(ScelError::EncodingError),
                Some(text) => match parse_symbols_from(s, pos + 4 + l) {
                    Err(e) => Err(e),
                    Ok(rest) => Ok(seq![text] + rest),
                },
            }
        }
    }
}

/// Parse the whole phonetic-symbol section: its section-type signature, then
/// the symbol records.
pub open spec fn parse_symbol_table(s: Seq<u8>) -> Result<Seq<Seq<char>>, ScelError> {
    if s.len() < 4 || s.subrange(0, 4) != section_magic() {
        Err(ScelError::MalformedSection)
    } else {
        parse_symbols_from(s, 4)
    }
}

/// Prepend already-decoded symbols to the outcome of parsing the rest.
pub open spec fn prepend_symbols(acc: Seq<Seq<char>>, r: Result<Seq<Seq<char>>, ScelError>) -> Result<
    Seq<Seq<char>>,
    ScelError,
> {
    match r {
        Ok(rest) => Ok(acc + rest),
        Err(e) => Err(e),
    }
}

/// Is `k` a record boundary of the symbol records that start at `pos`: a
/// point that stepping over whole records from `pos` lands on exactly?
pub open spec fn symbol_boundary(s: Seq<u8>, pos: int, k: int) -> bool
    decreases k - pos when pos <= k
{
    if k <= pos {
        k == pos
    } else if pos + 4 > s.len() {
        false
    } else {
        let next = pos + 4 + u16_le_at(s, pos + 2) as int;
        if next <= s.len() && next <= k {
            symbol_boundary(s, next, k)
        } else {
            false
        }
    }
}

/// Law (truncation): cutting a well-formed symbol section strictly inside a
/// record — inside its marker or length fields or its text payload — always
/// yields the truncation error, never a silent short parse.
pub proof fn lemma_symbols_truncation(s: Seq<u8>, pos: int, k: int)
    requires
        0 <= pos <= k < s.len(),
        parse_symbols_from(s, pos) is Ok,
        !symbol_boundary(s, pos, k),
    ensures
        parse_symbols_from(s.take(k), pos) == Err::<Seq<Seq<char>>, ScelError>(
            ScelError::TruncatedSection,
        ),
    decreases s.len() - pos,
{
    let t = s.take(k);
    assert(pos < k);
    if pos + 4 > k {
    } else {
        let l = u16_le_at(s, pos + 2) as int;
        assert(u16_le_at(t, pos + 2) == l);
        assert(pos + 4 + l <= s.len());
        if pos + 4 + l <= k {
            assert(t.subrange(pos + 4, pos + 4 + l) =~= s.subrange(pos + 4, pos + 4 + l));
            assert(!symbol_boundary(s, pos + 4 + l, k));
            lemma_symbols_truncation(s, pos + 4 + l, k);
        }
    }
}

/// Law (truncation), stated for the whole section: cutting a well-formed
/// phonetic section strictly inside one of its records always yields the
/// truncation error.
pub proof fn lemma_symbol_table_truncation(s: Seq<u8>, k: int)
    requires
        4 <= k < s.len(),
        parse_symbol_table(s) is Ok,
        !symbol_boundary(s, 4, k),
    ensures
        parse_symbol_table(s.take(k)) == Err::<Seq<Seq<char>>, ScelError>(
            ScelError::TruncatedSection,
        ),
{
    assert(s.take(k).subrange(0, 4) =~= s.subrange(0, 4));
    lemma_symbols_truncation(s, 4, k);
}

/// Does the section open with its 4-byte section-type signature?
fn has_section_magic(data: &[u8]) -> (r: bool)
    requires
        data@.len() >= 4,
    ensures
        r == (data@.subrange(0, 4) == section_magic()),
{
    let b0 = *vstd::slice::slice_index_get(data, 0);
    let b1 = *vstd::slice::slice_index_get(data, 1);
    let b2 = *vstd::slice::slice_index_get(data, 2);
    let b3 = *vstd::slice::slice_index_get(data, 3);
    let r = b0 == 0x9d && b1 == 0x01 && b2 == 0x00 && b3 == 0x00;
    proof {
        assert(data@.subrange(0, 4)[0] == b0);
        assert(data@.subrange(0, 4)[1] == b1);
        assert(data@.subrange(0, 4)[2] == b2);
        assert(data@.subrange(0, 4)[3] == b3);
        if r {
            assert(data@.subrange(0, 4) =~= section_magic());
        }
    }
    r
}

/// Decode the phonetic-symbol section into the ordered symbol table.
#[verifier::loop_isolation(false)]
pub fn get_pinyin_table(data: &[u8]) -> (r: Result<Vec<String>, ScelError>)
    ensures
        match r {
            Ok(t) => parse_symbol_table(data@) == Ok::<_, ScelError>(t.deep_view()),
            Err(e) => parse_symbol_table(data@) == Err::<Seq<Seq<char>>, _>(e),
        },
{
    let n = data.len();
    if n < 4 {
        return Err(ScelError::MalformedSection);
    }
    if !has_section_magic(data) {
        return Err(ScelError::MalformedSection);
    }
    let mut table: Vec<String> = Vec::new();
    let mut pos: usize = 4;
    loop
        invariant
            4 <= pos <= n,
            parse_symbols_from(data@, 4) == prepend_symbols(
                table.deep_view(),
                parse_symbols_from(data@, pos as int),
            ),
        decreases n - pos,
    {
        if pos == n {
            break ;
        }
        if n - pos < 4 {
            return Err(ScelError::TruncatedSection);
        }
        let l = read_u16_le(data, pos + 2) as usize;
        if n - pos - 4 < l {
            return Err(ScelError::TruncatedSection);
        }
        let payload = vstd::slice::slice_subrange(data, pos + 4, pos + 4 + l);
        let text = match decode_utf16le(payload) {
            Ok(t) => t,
            Err(e) => {
                return Err(e);
            },
        };
        proof {
            let ghost old_dv = table.deep_view();
            let ghost next = parse_symbols_from(data@, pos + 4 + l as int);
            assert(parse_symbols_from(data@, pos as int) == match next {
                Err(e) => Err::<Seq<Seq<char>>, ScelError>(e),
                Ok(rest) => Ok(seq![text@] + rest),
            });
        }
        let ghost old_dv = table.deep_view();
        table.push(text);
        proof {
            assert(table.deep_view() =~= old_dv + seq![table@[old_dv.len() as int]@]);
            match parse_symbols_from(data@, pos + 4 + l as int) {
                Ok(rest) => {
                    assert(old_dv + (seq![table@[old_dv.len() as int]@] + rest) =~= table.deep_view()
                        + rest);
                },
                Err(_) => {},
            }
        }
        pos = pos + 4 + l;
    }
    Ok(table)
}

} // verus!
