use vstd::prelude::*;
use vstd::string::StrSliceExecFns;
use vstd::string::StringExecFns;

use crate::errors::ScelError;
use crate::textenc::trim_ends;
use crate::textenc::trim_of;
use crate::words::Entry;
use crate::words::EntryView;

verus! {

/// Does every position of `idx` address a symbol of a table of `table_len`
/// symbols?
pub open spec fn indices_valid(table_len: nat, idx: Seq<u16>) -> bool {
    forall|j: int| 0 <= j < idx.len() ==> (idx[j] as nat) < table_len
}

/// Does every entry reference only symbols that the table holds?
pub open spec fn all_indices_valid(table_len: nat, es: Seq<EntryView>) -> bool {
    forall|i: int| 0 <= i < es.len() ==> indices_valid(table_len, #[trigger] es[i].py_index_list)
}

/// The phonetic spelling of one entry before trimming: each referenced symbol
/// preceded by one space, in order.
pub open spec fn joined(table: Seq<Seq<char>>, idx: Seq<u16>) -> Seq<char>
    decreases idx.len(),
{
    if idx.len() == 0 {
        Seq::empty()
    } else {
        joined(table, idx.drop_last()) + seq![' '] + table[idx.last() as int]
    }
}

/// One output line: the entry text, a tab, the trimmed space-joined spelling,
/// a newline.
pub open spec fn line_of(table: Seq<Seq<char>>, e: EntryView) -> Seq<char> {
    e.word + "\t"@ + trim_of(joined(table, e.py_index_list)) + "\n"@
}

/// The whole output text: one line per entry, in decoding order.
pub open spec fn lines_of(table: Seq<Seq<char>>, es: Seq<EntryView>) -> Seq<char>
    decreases es.len(),
{
    if es.len() == 0 {
        Seq::empty()
    } else {
        lines_of(table, es.drop_last()) + line_of(table, es.last())
    }
}

/// What emission yields: the UTF-8 bytes of the output text when every index
/// resolves, and a dangling-index failure otherwise.
pub open spec fn emit_spec(table: Seq<Seq<char>>, es: Seq<EntryView>) -> Result<Seq<u8>, ScelError> {
    if all_indices_valid(table.len(), es) {
        Ok(vstd::utf8::encode_utf8(lines_of(table, es)))
    } else {
        Err(ScelError::DanglingIndex)
    }
}

/// Law: when emission succeeds, no entry holds a dangling symbol reference:
/// every index of every entry addresses a position of the symbol table.
pub proof fn lemma_emit_ok_no_dangling(table: Seq<Seq<char>>, es: Seq<EntryView>)
    requires
        emit_spec(table, es) is Ok,
    ensures
        forall|i: int, j: int|
            0 <= i < es.len() && 0 <= j < es[i].py_index_list.len() ==> (
            #[trigger] es[i].py_index_list[j] as nat) < table.len(),
{
    assert(all_indices_valid(table.len(), es));
    assert forall|i: int, j: int|
        0 <= i < es.len() && 0 <= j < es[i].py_index_list.len() implies (
    #[trigger] es[i].py_index_list[j] as nat) < table.len() by {
        assert(indices_valid(table.len(), es[i].py_index_list));
    }
}

/// Resolve every entry against the symbol table and serialize the output
/// text, one line per entry, in order, as UTF-8 bytes.
#[verifier::loop_isolation(false)]
pub fn emit_dict(table: &Vec<String>, entries: &Vec<Entry>) -> (r: Result<Vec<u8>, ScelError>)
    ensures
        match r {
            Ok(v) => emit_spec(table.deep_view(), entries.deep_view()) == Ok::<_, ScelError>(v@),
            Err(e) => emit_spec(table.deep_view(), entries.deep_view()) == Err::<Seq<u8>, _>(e),
        },
{
    let ghost tdv = table.deep_view();
    let ghost edv = entries.deep_view();
    let mut text = String::new();
    let n = entries.len();
    let mut i: usize = 0;
    while i < n
        invariant
            i <= n,
            text@ == lines_of(tdv, edv.take(i as int)),
            all_indices_valid(tdv.len(), edv.take(i as int)),
        decreases n - i,
    {
        let e = &entries[i];
        proof {
            assert(e@ == edv[i as int]);
        }
        let mut py = String::new();
        let m = e.py_index_list.len();
        let mut j: usize = 0;
        while j < m
            invariant
                j <= m,
                py@ == joined(tdv, e.py_index_list@.take(j as int)),
                forall|q: int| 0 <= q < j ==> (e.py_index_list@[q] as nat) < tdv.len(),
            decreases m - j,
        {
            let ix = e.py_index_list[j];
            if ix as usize >= table.len() {
                proof {
                    assert(edv[i as int].py_index_list[j as int] == ix);
                    assert(!indices_valid(tdv.len(), edv[i as int].py_index_list));
                    assert(!all_indices_valid(tdv.len(), edv));
                }
                return Err(ScelError::DanglingIndex);
            }
            py.append(" ");
            let sym = &table[ix as usize];
            py.append(sym.as_str());
            proof {
                reveal_strlit(" ");
                assert(" "@ =~= seq![' ']);
                assert(tdv[ix as int] == sym@);
                let t = e.py_index_list@.take(j + 1);
                assert(t.drop_last() =~= e.py_index_list@.take(j as int));
                assert(t.last() == ix);
                assert(py@ =~= joined(tdv, t));
            }
            j += 1;
        }
        proof {
            assert(e.py_index_list@.take(m as int) =~= e.py_index_list@);
        }
        let trimmed = trim_ends(py.as_str());
        text.append(e.word.as_str());
        text.append("\t");
        text.append(trimmed);
        text.append("\n");
        proof {
            let t = edv.take(i + 1);
            assert(t.drop_last() =~= edv.take(i as int));
            assert(t.last() == edv[i as int]);
            assert(text@ =~= lines_of(tdv, t));
            assert(indices_valid(tdv.len(), edv[i as int].py_index_list));
        }
        i += 1;
    }
    proof {
        assert(edv.take(n as int) =~= edv);
    }
    let out = text.as_str().as_bytes_vec();
    Ok(out)
}

} // verus!
