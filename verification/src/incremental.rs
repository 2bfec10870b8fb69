use vstd::prelude::*;

verus! {

use vstd::string::{StringSliceAdditionalSpecFns, StrSliceExecFns};

use crate::chunking::{parse_source, parse_source_with, parses, tree_edit, ByteEdit, ExtractError};
use crate::languages::LanguageKind;
use crate::strutil::lower_of;

/// A zero-based row/column position in a text, counted in bytes.
#[derive(Debug, Clone, Copy, PartialEq, Eq, Structural)]
pub struct TextPoint {
    pub row: usize,
    pub column: usize,
}

/// The row/column reached after walking a byte sequence: rows advance at
/// every newline byte, columns count bytes since the last newline.
pub open spec fn point_of(bytes: Seq<u8>) -> (int, int)
    decreases bytes.len(),
{
    if bytes.len() == 0 {
        (0, 0)
    } else {
        let prev = point_of(bytes.drop_last());
        if bytes.last() == 10u8 {
            (prev.0 + 1, 0)
        } else {
            (prev.0, prev.1 + 1)
        }
    }
}

/// Translates a byte offset into a `(row, column)` point by counting the
/// newlines up to that byte; offsets past the end are clamped.
pub fn byte_to_point(source: &str, byte_index: usize) -> (r: TextPoint)
    ensures
        ({
            let clamped = if byte_index <= source.spec_bytes().len() {
                byte_index as int
            } else {
                source.spec_bytes().len() as int
            };
            r.row == point_of(source.spec_bytes().take(clamped)).0 && r.column == point_of(
                source.spec_bytes().take(clamped),
            ).1
        }),
{
    let bytes = source.as_bytes_vec();
    let n = bytes.len();
    let clamped = if byte_index < n {
        byte_index
    } else {
        n
    };
    let mut row: usize = 0;
    let mut col: usize = 0;
    let mut i: usize = 0;
    while i < clamped
        invariant
            clamped <= n == bytes@.len(),
            bytes@ == source.spec_bytes(),
            i <= clamped,
            row == point_of(bytes@.take(i as int)).0,
            col == point_of(bytes@.take(i as int)).1,
            row <= i,
            col <= i,
        decreases clamped - i,
    {
        proof {
            assert(bytes@.take(i + 1 as int).drop_last() =~= bytes@.take(i as int));
            assert(bytes@.take(i + 1 as int).last() == bytes@[i as int]);
        }
        if bytes[i] == 10u8 {
            row = row + 1;
            col = 0;
        } else {
            col = col + 1;
        }
        i = i + 1;
    }
    TextPoint { row, column: col }
}

/// The maximal common prefix and suffix of the two byte sequences, and the
/// differing middle as `(start, old_end, new_end)`; equal sequences have no
/// edit span.
pub fn compute_edit_span(old_source: &str, new_source: &str) -> (r: Option<(usize, usize, usize)>)
    ensures
        r is None <==> old_source.spec_bytes() == new_source.spec_bytes(),
        r matches Some((p, oe, ne)) ==> {
            let ob = old_source.spec_bytes();
            let nb = new_source.spec_bytes();
            &&& p <= oe <= ob.len()
            &&& p <= ne <= nb.len()
            &&& ob.take(p as int) == nb.take(p as int)
            &&& ob.skip(oe as int) == nb.skip(ne as int)
            &&& (p == ob.len() || p == nb.len() || ob[p as int] != nb[p as int])
            &&& (oe == p || ne == p || ob[oe - 1] != nb[ne - 1])
        },
{
    let ob = old_source.as_bytes_vec();
    let nb = new_source.as_bytes_vec();
    let on = ob.len();
    let nn = nb.len();
    let min_len = if on < nn {
        on
    } else {
        nn
    };
    let mut prefix: usize = 0;
    while prefix < min_len && ob[prefix] == nb[prefix]
        invariant
            ob@ == old_source.spec_bytes(),
            nb@ == new_source.spec_bytes(),
            on == ob@.len(),
            nn == nb@.len(),
            min_len <= on,
            min_len <= nn,
            prefix <= min_len,
            forall|k: int| 0 <= k < prefix ==> ob@[k] == nb@[k],
        decreases min_len - prefix,
    {
        prefix = prefix + 1;
    }
    if prefix == on && prefix == nn {
        proof {
            assert(ob@ =~= nb@);
        }
        return None;
    }
    let mut old_suffix: usize = on;
    let mut new_suffix: usize = nn;
    while old_suffix > prefix && new_suffix > prefix && ob[old_suffix - 1] == nb[new_suffix - 1]
        invariant
            ob@ == old_source.spec_bytes(),
            nb@ == new_source.spec_bytes(),
            on == ob@.len(),
            nn == nb@.len(),
            prefix <= old_suffix <= on,
            prefix <= new_suffix <= nn,
            on - old_suffix == nn - new_suffix,
            forall|k: int|
                0 <= k < on - old_suffix ==> #[trigger] ob@[old_suffix + k] == nb@[new_suffix
                    + k],
        decreases old_suffix,
    {
        old_suffix = old_suffix - 1;
        new_suffix = new_suffix - 1;
        proof {
            assert forall|k: int|
                0 <= k < on - old_suffix implies #[trigger] ob@[old_suffix + k] == nb@[new_suffix
                + k] by {
                if k == 0 {
                } else {
                    assert(ob@[old_suffix + 1 + (k - 1)] == nb@[new_suffix + 1 + (k - 1)]);
                }
            }
        }
    }
    proof {
        assert(ob@.take(prefix as int) =~= nb@.take(prefix as int));
        assert forall|k: int|
            0 <= k < ob@.skip(old_suffix as int).len() implies ob@.skip(old_suffix as int)[k]
            == nb@.skip(new_suffix as int)[k] by {
            assert(ob@.skip(old_suffix as int)[k] == ob@[old_suffix + k]);
            assert(nb@.skip(new_suffix as int)[k] == nb@[new_suffix + k]);
            assert(ob@[old_suffix + k] == nb@[new_suffix + k]);
        }
        assert(ob@.skip(old_suffix as int) =~= nb@.skip(new_suffix as int));
        if prefix < on && prefix < nn && ob@[prefix as int] == nb@[prefix as int] {
            assert(false);
        }
        if ob@ == nb@ {
            assert(on == nn);
            if old_suffix > prefix {
                assert(ob@[old_suffix - 1] == nb@[new_suffix - 1]);
                assert(false);
            }
            assert(prefix == on || prefix == nn || ob@[prefix as int] != nb@[prefix as int]);
            if prefix < on {
                assert(ob@[prefix as int] == nb@[prefix as int]);
                assert(false);
            }
            assert(false);
        }
    }
    Some((prefix, old_suffix, new_suffix))
}

/// Reparses a changed file: the old source is parsed, the edit span is
/// marked on its tree, and the new source is parsed with that tree as
/// context.  An unrecognized extension is rejected before any parsing.
pub fn incremental_reparse(
    path: &str,
    old_source: &str,
    new_source: &str,
    edit: &ByteEdit,
) -> (r: Result<tree_sitter::Tree, ExtractError>)
    ensures
        (LanguageKind::from_path_spec(lower_of(path@)) is None) <==> r == Err::<
            tree_sitter::Tree,
            ExtractError,
        >(ExtractError::UnsupportedExtension),
        LanguageKind::from_path_spec(lower_of(path@)) matches Some(kind) ==> ((r is Ok) <==> (
        parses(kind, old_source@) && parses(kind, new_source@))),
        LanguageKind::from_path_spec(lower_of(path@)) matches Some(kind) ==> ((r == Err::<
            tree_sitter::Tree,
            ExtractError,
        >(ExtractError::ParseFailed)) <==> !(parses(kind, old_source@) && parses(
            kind,
            new_source@,
        ))),
{
    let kind = match LanguageKind::from_path(path) {
        Some(k) => k,
        None => {
            return Err(ExtractError::UnsupportedExtension);
        },
    };
    let mut old_tree = match parse_source(kind, old_source) {
        Some(t) => t,
        None => {
            return Err(ExtractError::ParseFailed);
        },
    };
    tree_edit(&mut old_tree, edit);
    match parse_source_with(kind, new_source, &old_tree) {
        Some(t) => Ok(t),
        None => Err(ExtractError::ParseFailed),
    }
}

/// A diagnostic round through the incremental reparser: equal sources are
/// trivially fine; otherwise the edit span is computed, translated to
/// points, and the reparse attempted.
pub fn try_incremental_parse(path: &str, old_source: &str, new_source: &str) -> (r: bool)
    ensures
        old_source.spec_bytes() == new_source.spec_bytes() ==> r == true,
        old_source.spec_bytes() != new_source.spec_bytes() ==> r == (match LanguageKind::from_path_spec(
            lower_of(path@),
        ) {
            Some(kind) => parses(kind, old_source@) && parses(kind, new_source@),
            None => false,
        }),
{
    let span = match compute_edit_span(old_source, new_source) {
        Some(s) => s,
        None => {
            return true;
        },
    };
    let (start_byte, old_end_byte, new_end_byte) = span;
    let start = byte_to_point(old_source, start_byte);
    let old_end = byte_to_point(old_source, old_end_byte);
    let new_end = byte_to_point(new_source, new_end_byte);
    let edit = ByteEdit {
        start_byte,
        old_end_byte,
        new_end_byte,
        start_row: start.row,
        start_col: start.column,
        old_end_row: old_end.row,
        old_end_col: old_end.column,
        new_end_row: new_end.row,
        new_end_col: new_end.column,
    };
    incremental_reparse(path, old_source, new_source, &edit).is_ok()
}

} // verus!
