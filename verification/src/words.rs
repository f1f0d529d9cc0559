use vstd::prelude::*;

use crate::byteread::read_u16_le;
use crate::byteread::u16_le_at;
use crate::errors::ScelError;
use crate::textenc::decode_utf16le;
use crate::textenc::utf16le_decode;

verus! {

/// The mathematical shape of one decoded entry.
pub struct EntryView {
    pub word: Seq<char>,
    pub py_index_list: Seq<u16>,
    pub priority: u16,
}

/// One word/phrase record: its text, the ordered symbol-table positions of
/// its phonetic spelling (an independent copy, one per entry), and its
/// priority weight.
#[derive(Debug, PartialEq, Eq)]
pub struct Entry {
    pub word: String,
    pub py_index_list: Vec<u16>,
    pub priority: u16,
}

impl View for Entry {
    type V = EntryView;

    open spec fn view(&self) -> EntryView {
        EntryView { word: self.word@, py_index_list: self.py_index_list@, priority: self.priority }
    }
}

impl DeepView for Entry {
    type V = EntryView;

    open spec fn deep_view(&self) -> EntryView {
        self@
    }
}

/// The `count` little-endian 16-bit symbol-table indices stored from byte
/// offset `pos` on.
pub open spec fn indices_of(s: Seq<u8>, pos: int, count: int) -> Seq<u16>
    recommends
        count >= 0,
{
    Seq::new(count as nat, |i: int| u16_le_at(s, pos + 2 * i))
}

/// Parse the remaining `n` members of one homophone group from byte offset
/// `pos`: each member is a 16-bit text byte length, that many bytes of
/// UTF-16LE text, a 16-bit extension-block length `ext` (at least 2), the
/// 16-bit priority that opens the extension block, and the remaining
/// `ext - 2` extension bytes, which are skipped. On success the members and
/// the offset just past the group come back.
pub open spec fn parse_members(s: Seq<u8>, pos: int, idx: Seq<u16>, n: int) -> Result<
    (Seq<EntryView>, int),
    ScelError,
>
    decreases n,
{
    if n <= 0 {
        Ok((Seq::empty(), pos))
    } else if pos + 2 > s.len() {
        Err(ScelError::TruncatedSection)
    } else {
        let wlen = u16_le_at(s, pos) as int;
        if pos + 2 + wlen > s.len() {
            Err(ScelError::TruncatedSection)
        } else {
            match utf16le_decode(s.subrange(pos + 2, pos + 2 + wlen)) {
                None => Err(ScelError::EncodingError),
                Some(w) => {
                    let p2 = pos + 2 + wlen;
                    if p2 + 2 > s.len() {
                        Err(ScelError::TruncatedSection)
                    } else {
                        let ext = u16_le_at(s, p2) as int;
                        if ext < 2 {
                            Err(ScelError::TruncatedSection)
                        } else if p2 + 2 + ext > s.len() {
                            Err(ScelError::TruncatedSection)
                        } else {
                            let pri = u16_le_at(s, p2 + 2);
                            match parse_members(s, p2 + 2 + ext, idx, n - 1) {
                                Err(e) => Err(e),
                                Ok((rest, end)) => Ok(
                                    (
                                        seq![
                                            EntryView {
                                                word: w,
                                                py_index_list: idx,
                                                priority: pri,
                                            },
                                        ] + rest,
                                        end,
                                    ),
                                ),
                            }
                        }
                    }
                },
            }
        }
    }
}

/// On success, a group's member parse never moves backwards and never leaves
/// the buffer.
pub proof fn lemma_members_end(s: Seq<u8>, pos: int, idx: Seq<u16>, n: int)
    requires
        0 <= pos <= s.len(),
    ensures
        match parse_members(s, pos, idx, n) {
            Ok((es, end)) => pos <= end <= s.len(),
            Err(_) => true,
        },
    decreases n,
{
    if n <= 0 {
    } else if pos + 2 > s.len() {
    } else {
        let wlen = u16_le_at(s, pos) as int;
        if pos + 2 + wlen <= s.len() {
            match utf16le_decode(s.subrange(pos + 2, pos + 2 + wlen)) {
                None => {},
                Some(w) => {
                    let p2 = pos + 2 + wlen;
                    if p2 + 2 <= s.len() {
                        let ext = u16_le_at(s, p2) as int;
                        if 2 <= ext && p2 + 2 + ext <= s.len() {
                            lemma_members_end(s, p2 + 2 + ext, idx, n - 1);
                        }
                    }
                },
            }
        }
    }
}

/// Parse homophone groups from byte offset `pos` to the end of the word
/// section: each group is a 16-bit member count, a 16-bit byte length of the
/// shared index sequence, the little-endian 16-bit indices themselves (one
/// index per whole pair of declared bytes; an odd trailing byte carries no
/// index and is skipped with the declared length), and then the members.
/// Reaching the end exactly at a group boundary ends the parse; running out
/// of bytes anywhere else is a truncation.
pub open spec fn parse_groups(s: Seq<u8>, pos: int) -> Result<Seq<EntryView>, ScelError>
    recommends
        0 <= pos <= s.len(),
    decreases s.len() - pos
        when 0 <= pos <= s.len()
        via parse_groups_dec
{
    if pos == s.len() {
        Ok(Seq::empty())
    } else if pos + 4 > s.len() {
        Err(ScelError::TruncatedSection)
    } else {
        let n = u16_le_at(s, pos) as int;
        let ilen = u16_le_at(s, pos + 2) as int;
        if pos + 4 + ilen > s.len() {
            Err(ScelError::TruncatedSection)
        } else {
            let idx = indices_of(s, pos + 4, ilen / 2);
            match parse_members(s, pos + 4 + ilen, idx, n) {
                Err(e) => Err(e),
                Ok((group, end)) => match parse_groups(s, end) {
                    Err(e) => Err(e),
                    Ok(rest) => Ok(group + rest),
                },
            }
        }
    }
}

#[via_fn]
proof fn parse_groups_dec(s: Seq<u8>, pos: int) {
    if 0 <= pos <= s.len() && pos != s.len() && pos + 4 <= s.len() {
        let n = u16_le_at(s, pos) as int;
        let ilen = u16_le_at(s, pos + 2) as int;
        if pos + 4 + ilen <= s.len() {
            let idx = indices_of(s, pos + 4, ilen / 2);
            lemma_members_end(s, pos + 4 + ilen, idx, n);
        }
    }
}

/// Prepend already-decoded entries to the outcome of parsing the rest.
pub open spec fn prepend_entries(acc: Seq<EntryView>, r: Result<Seq<EntryView>, ScelError>) -> Result<
    Seq<EntryView>,
    ScelError,
> {
    match r {
        Ok(rest) => Ok(acc + rest),
        Err(e) => Err(e),
    }
}

/// Prepend already-decoded members to the outcome of parsing the rest of a
/// group.
pub open spec fn prepend_members(acc: Seq<EntryView>, r: Result<(Seq<EntryView>, int), ScelError>) -> Result<
    (Seq<EntryView>, int),
    ScelError,
> {
    match r {
        Ok((rest, end)) => Ok((acc + rest, end)),
        Err(e) => Err(e),
    }
}

/// Law: every homophone group expands to exactly as many entries as its
/// declared member count.
pub proof fn lemma_group_count(s: Seq<u8>, pos: int, idx: Seq<u16>, n: int)
    requires
        n >= 0,
        parse_members(s, pos, idx, n) is Ok,
    ensures
        match parse_members(s, pos, idx, n) {
            Ok((es, end)) => es.len() == n,
            Err(_) => true,
        },
    decreases n,
{
    if n > 0 {
        let wlen = u16_le_at(s, pos) as int;
        let p2 = pos + 2 + wlen;
        let ext = u16_le_at(s, p2) as int;
        lemma_group_count(s, p2 + 2 + ext, idx, n - 1);
    }
}

/// A group's member parse reads no byte at or past its end offset: it comes
/// out the same on any buffer cut at or after that offset.
pub proof fn lemma_members_stable(s: Seq<u8>, k: int, pos: int, idx: Seq<u16>, n: int)
    requires
        0 <= pos <= s.len(),
        parse_members(s, pos, idx, n) matches Ok((es, end)) && end <= k <= s.len(),
    ensures
        parse_members(s.take(k), pos, idx, n) == parse_members(s, pos, idx, n),
    decreases n,
{
    let t = s.take(k);
    if n <= 0 {
    } else {
        let wlen = u16_le_at(s, pos) as int;
        let p2 = pos + 2 + wlen;
        let ext = u16_le_at(s, p2) as int;
        let p3 = p2 + 2 + ext;
        lemma_members_end(s, p3, idx, n - 1);
        assert(p3 <= k);
        assert(u16_le_at(t, pos) == wlen);
        assert(t.subrange(pos + 2, p2) =~= s.subrange(pos + 2, p2));
        assert(u16_le_at(t, p2) == ext);
        assert(u16_le_at(t, p2 + 2) == u16_le_at(s, p2 + 2));
        lemma_members_stable(s, k, p3, idx, n - 1);
    }
}

/// Law (truncation): cutting a well-formed group strictly inside its member
/// area — inside a length field, a text payload, or an extension block —
/// always yields the truncation error, never a silent short parse.
pub proof fn lemma_members_truncation(s: Seq<u8>, pos: int, idx: Seq<u16>, n: int, k: int)
    requires
        0 <= pos <= s.len(),
        parse_members(s, pos, idx, n) matches Ok((es, end)) && pos <= k < end,
    ensures
        parse_members(s.take(k), pos, idx, n) == Err::<(Seq<EntryView>, int), ScelError>(
            ScelError::TruncatedSection,
        ),
    decreases n,
{
    let t = s.take(k);
    lemma_members_end(s, pos, idx, n);
    assert(n > 0);
    if pos + 2 > k {
    } else {
        let wlen = u16_le_at(s, pos) as int;
        assert(u16_le_at(t, pos) == wlen);
        if pos + 2 + wlen > k {
        } else {
            assert(t.subrange(pos + 2, pos + 2 + wlen) =~= s.subrange(pos + 2, pos + 2 + wlen));
            let p2 = pos + 2 + wlen;
            if p2 + 2 > k {
            } else {
                let ext = u16_le_at(s, p2) as int;
                assert(u16_le_at(t, p2) == ext);
                if p2 + 2 + ext > k {
                } else {
                    let p3 = p2 + 2 + ext;
                    assert(u16_le_at(t, p2 + 2) == u16_le_at(s, p2 + 2));
                    lemma_members_end(s, p3, idx, n - 1);
                    lemma_members_truncation(s, p3, idx, n - 1, k);
                }
            }
        }
    }
}

/// Is `k` a group boundary of the word section's groups that start at `pos`:
/// a point that stepping over whole homophone groups from `pos` lands on
/// exactly?
pub open spec fn group_boundary(s: Seq<u8>, pos: int, k: int) -> bool
    decreases k - pos
        when 0 <= pos <= k <= s.len()
        via group_boundary_dec
{
    if k <= pos {
        k == pos
    } else if pos + 4 > s.len() {
        false
    } else {
        let n = u16_le_at(s, pos) as int;
        let ilen = u16_le_at(s, pos + 2) as int;
        if pos + 4 + ilen > s.len() {
            false
        } else {
            match parse_members(s, pos + 4 + ilen, indices_of(s, pos + 4, ilen / 2), n) {
                Err(_) => false,
                Ok((group, end)) => if end <= k {
                    group_boundary(s, end, k)
                } else {
                    false
                },
            }
        }
    }
}

#[via_fn]
proof fn group_boundary_dec(s: Seq<u8>, pos: int, k: int) {
    if 0 <= pos <= k <= s.len() && k > pos && pos + 4 <= s.len() {
        let n = u16_le_at(s, pos) as int;
        let ilen = u16_le_at(s, pos + 2) as int;
        if pos + 4 + ilen <= s.len() {
            lemma_members_end(s, pos + 4 + ilen, indices_of(s, pos + 4, ilen / 2), n);
        }
    }
}

/// Law (truncation): cutting a well-formed word section strictly inside a
/// homophone group — inside any declared-length field, any text payload, or
/// any extension block — always yields the truncation error, never a silent
/// short parse.
pub proof fn lemma_groups_truncation(s: Seq<u8>, pos: int, k: int)
    requires
        0 <= pos <= k < s.len(),
        parse_groups(s, pos) is Ok,
        !group_boundary(s, pos, k),
    ensures
        parse_groups(s.take(k), pos) == Err::<Seq<EntryView>, ScelError>(
            ScelError::TruncatedSection,
        ),
    decreases s.len() - pos,
{
    let t = s.take(k);
    assert(pos < k);
    if pos + 4 > k {
    } else {
        let n = u16_le_at(s, pos) as int;
        let ilen = u16_le_at(s, pos + 2) as int;
        assert(u16_le_at(t, pos) == n);
        assert(u16_le_at(t, pos + 2) == ilen);
        assert(pos + 4 + ilen <= s.len());
        if pos + 4 + ilen > k {
        } else {
            let idx = indices_of(s, pos + 4, ilen / 2);
            assert(indices_of(t, pos + 4, ilen / 2) =~= idx);
            let mres = parse_members(s, pos + 4 + ilen, idx, n);
            lemma_members_end(s, pos + 4 + ilen, idx, n);
            match mres {
                Err(_) => {
                    assert(false);
                },
                Ok((group, end)) => {
                    if k < end {
                        lemma_members_truncation(s, pos + 4 + ilen, idx, n, k);
                    } else {
                        lemma_members_stable(s, k, pos + 4 + ilen, idx, n);
                        assert(!group_boundary(s, end, k));
                        lemma_groups_truncation(s, end, k);
                    }
                },
            }
        }
    }
}

/// Decode the word section into the ordered entry list.
#[verifier::loop_isolation(false)]
pub fn get_word_list(data: &[u8]) -> (r: Result<Vec<Entry>, ScelError>)
    ensures
        match r {
            Ok(es) => parse_groups(data@, 0) == Ok::<_, ScelError>(es.deep_view()),
            Err(e) => parse_groups(data@, 0) == Err::<Seq<EntryView>, _>(e),
        },
{
    let n_total = data.len();
    let mut out: Vec<Entry> = Vec::new();
    let mut pos: usize = 0;
    loop
        invariant
            0 <= pos <= n_total,
            parse_groups(data@, 0) == prepend_entries(
                out.deep_view(),
                parse_groups(data@, pos as int),
            ),
        decreases n_total - pos,
    {
        if pos == n_total {
            break ;
        }
        if n_total - pos < 4 {
            return Err(ScelError::TruncatedSection);
        }
        let gcount = read_u16_le(data, pos) as usize;
        let ilen = read_u16_le(data, pos + 2) as usize;
        if n_total - pos - 4 < ilen {
            return Err(ScelError::TruncatedSection);
        }
        let ibase = pos + 4;
        let icount = ilen / 2;
        let mut idx: Vec<u16> = Vec::new();
        let mut k: usize = 0;
        while k < icount
            invariant
                k <= icount,
                idx@.len() == k,
                forall|j: int| 0 <= j < k ==> idx@[j] == u16_le_at(data@, ibase + 2 * j),
            decreases icount - k,
        {
            idx.push(read_u16_le(data, ibase + 2 * k));
            k += 1;
        }
        proof {
            assert(idx@ =~= indices_of(data@, ibase as int, icount as int));
        }
        let ghost gstart = (ibase + ilen) as int;
        let mut mpos: usize = ibase + ilen;
        let mut members: Vec<Entry> = Vec::new();
        let mut g: usize = 0;
        while g < gcount
            invariant
                g <= gcount,
                gstart <= mpos <= n_total,
                parse_members(data@, gstart, idx@, gcount as int) == prepend_members(
                    members.deep_view(),
                    parse_members(data@, mpos as int, idx@, gcount - g),
                ),
            decreases gcount - g,
        {
            if n_total - mpos < 2 {
                return Err(ScelError::TruncatedSection);
            }
            let wlen = read_u16_le(data, mpos) as usize;
            if n_total - mpos - 2 < wlen {
                return Err(ScelError::TruncatedSection);
            }
            let wslice = vstd::slice::slice_subrange(data, mpos + 2, mpos + 2 + wlen);
            let word = match decode_utf16le(wslice) {
                Ok(w) => w,
                Err(e) => {
                    return Err(e);
                },
            };
            let p2 = mpos + 2 + wlen;
            if n_total - p2 < 2 {
                return Err(ScelError::TruncatedSection);
            }
            let ext = read_u16_le(data, p2) as usize;
            if ext < 2 {
                return Err(ScelError::TruncatedSection);
            }
            if n_total - p2 - 2 < ext {
                return Err(ScelError::TruncatedSection);
            }
            let pri = read_u16_le(data, p2 + 2);
            let entry = Entry { word, py_index_list: idx.clone(), priority: pri };
            proof {
                assert(entry@.py_index_list =~= idx@);
                let ghost m = gcount - g;
                let ghost next = parse_members(data@, p2 + 2 + ext, idx@, m - 1);
                assert(parse_members(data@, mpos as int, idx@, m) == match next {
                    Err(e) => Err::<(Seq<EntryView>, int), ScelError>(e),
                    Ok((rest, end)) => Ok((seq![entry@] + rest, end)),
                });
            }
            let ghost old_dv = members.deep_view();
            members.push(entry);
            proof {
                assert(members.deep_view() =~= old_dv + seq![members@[old_dv.len() as int]@]);
                match parse_members(data@, (p2 + 2 + ext) as int, idx@, gcount - g - 1) {
                    Ok((rest, end)) => {
                        assert(old_dv + (seq![members@[old_dv.len() as int]@] + rest)
                            =~= members.deep_view() + rest);
                    },
                    Err(_) => {},
                }
            }
            mpos = p2 + 2 + ext;
            g += 1;
        }
        proof {
            let ghost group_res = parse_members(data@, gstart, idx@, gcount as int);
            assert(group_res == Ok::<_, ScelError>((members.deep_view(), mpos as int)));
            let ghost whole = parse_groups(data@, pos as int);
            assert(whole == match parse_groups(data@, mpos as int) {
                Err(e) => Err::<Seq<EntryView>, ScelError>(e),
                Ok(rest) => Ok(members.deep_view() + rest),
            });
        }
        let ghost out_dv = out.deep_view();
        let ghost members_dv = members.deep_view();
        out.append(&mut members);
        proof {
            assert(out.deep_view() =~= out_dv + members_dv);
            match parse_groups(data@, mpos as int) {
                Ok(rest) => {
                    assert(out_dv + (members_dv + rest) =~= out.deep_view() + rest);
                },
                Err(_) => {},
            }
        }
        pos = mpos;
    }
    Ok(out)
}

} // verus!
