//! The script phase controller's text handling: extraction of embedded
//! BEGIN/END blocks from the MAIN script, precedence of explicitly supplied
//! phase scripts over embedded ones, and the framing of the MAIN body for
//! evaluate or execute mode.

use vstd::prelude::*;
use crate::text::{
    is_match_at, spec_remove_all, spec_trim, spec_contains, find_sub, subvec, remove_all,
    trim_bytes, contains_sub, push_all,
};

verus! {

/// `BEGIN {`
pub open spec fn marker_begin() -> Seq<u8> {
    seq![66u8, 69u8, 71u8, 73u8, 78u8, 32u8, 123u8]
}

/// `END {`
pub open spec fn marker_end() -> Seq<u8> {
    seq![69u8, 78u8, 68u8, 32u8, 123u8]
}

/// `}!`
pub open spec fn marker_close() -> Seq<u8> {
    seq![125u8, 33u8]
}

/// `return `
pub open spec fn txt_return() -> Seq<u8> {
    seq![114u8, 101u8, 116u8, 117u8, 114u8, 110u8, 32u8]
}

/// `_INDEX`
pub open spec fn txt_index_var() -> Seq<u8> {
    seq![95u8, 73u8, 78u8, 68u8, 69u8, 88u8]
}

fn begin_marker_vec() -> (v: Vec<u8>)
    ensures
        v@ == marker_begin(),
{
    let v = vec![66u8, 69u8, 71u8, 73u8, 78u8, 32u8, 123u8];
    assert(v@ =~= marker_begin());
    v
}

fn end_marker_vec() -> (v: Vec<u8>)
    ensures
        v@ == marker_end(),
{
    let v = vec![69u8, 78u8, 68u8, 32u8, 123u8];
    assert(v@ =~= marker_end());
    v
}

fn close_marker_vec() -> (v: Vec<u8>)
    ensures
        v@ == marker_close(),
{
    let v = vec![125u8, 33u8];
    assert(v@ =~= marker_close());
    v
}

/// The index-variable name as a value.
pub fn index_var_vec() -> (v: Vec<u8>)
    ensures
        v@ == txt_index_var(),
{
    let v = vec![95u8, 73u8, 78u8, 68u8, 69u8, 88u8];
    assert(v@ =~= txt_index_var());
    v
}

/// The least match of `pat` in `s` at or after `from`.
pub open spec fn spec_find_from(s: Seq<u8>, pat: Seq<u8>, from: int) -> Option<int>
    decreases s.len() + 1 - from,
{
    if from < 0 || from + pat.len() > s.len() {
        None
    } else if is_match_at(s, pat, from) {
        Some(from)
    } else {
        spec_find_from(s, pat, from + 1)
    }
}

pub proof fn lemma_find_from_props(s: Seq<u8>, pat: Seq<u8>, from: int)
    requires
        from >= 0,
    ensures
        match spec_find_from(s, pat, from) {
            Some(i) => from <= i && is_match_at(s, pat, i) && forall|j: int|
                from <= j < i ==> !is_match_at(s, pat, j),
            None => forall|j: int| j >= from ==> !is_match_at(s, pat, j),
        },
    decreases s.len() + 1 - from,
{
    if from + pat.len() > s.len() {
        assert forall|j: int| j >= from implies !is_match_at(s, pat, j) by {}
    } else if is_match_at(s, pat, from) {
    } else {
        lemma_find_from_props(s, pat, from + 1);
    }
}

/// Exec search aligned with the spec-level least match.
pub fn find_from(s: &Vec<u8>, pat: &Vec<u8>, from: usize) -> (r: Option<usize>)
    ensures
        match r {
            Some(i) => spec_find_from(s@, pat@, from as int) == Some(i as int),
            None => spec_find_from(s@, pat@, from as int) is None,
        },
{
    proof {
        lemma_find_from_props(s@, pat@, from as int);
    }
    let r = find_sub(s, pat, from);
    proof {
        match r {
            Some(i) => {
                match spec_find_from(s@, pat@, from as int) {
                    Some(k) => {
                        if k < i {
                            assert(!is_match_at(s@, pat@, k));
                        }
                        if k > i {
                            assert(!is_match_at(s@, pat@, i as int));
                        }
                    },
                    None => {
                        assert(!is_match_at(s@, pat@, i as int));
                    },
                }
            },
            None => {
                match spec_find_from(s@, pat@, from as int) {
                    Some(k) => {
                        assert(!is_match_at(s@, pat@, k));
                    },
                    None => {},
                }
            },
        }
    }
    r
}

/// The first embedded block opened by `open` and closed by the earliest
/// following `}!`: its raw content, and the whole matched span.
pub open spec fn spec_extract_block(s: Seq<u8>, open: Seq<u8>) -> Option<(Seq<u8>, Seq<u8>)> {
    match spec_find_from(s, open, 0) {
        None => None,
        Some(b) => match spec_find_from(s, marker_close(), b + open.len()) {
            None => None,
            Some(e) => Some((s.subrange(b + open.len(), e), s.subrange(b, e + 2))),
        },
    }
}

/// `s` once the matched block span, everywhere it occurs, is removed.
pub open spec fn spec_without_block(s: Seq<u8>, open: Seq<u8>) -> Seq<u8> {
    match spec_extract_block(s, open) {
        None => s,
        Some((block, span)) => spec_remove_all(s, span),
    }
}

/// The embedded block's raw content, or empty text when there is none.
pub open spec fn spec_block_content(s: Seq<u8>, open: Seq<u8>) -> Seq<u8> {
    match spec_extract_block(s, open) {
        None => Seq::empty(),
        Some((block, span)) => block,
    }
}

/// Extracts the first embedded block and removes its span from `s`.
fn extract_block(s: &Vec<u8>, open: &Vec<u8>) -> (r: (Vec<u8>, Vec<u8>))
    requires
        open@.len() > 0,
    ensures
        r.0@ == spec_block_content(s@, open@),
        r.1@ == spec_without_block(s@, open@),
{
    let close = close_marker_vec();
    match find_from(s, open, 0) {
        None => (Vec::new(), s.clone()),
        Some(b) => {
            let sl = s.len();
            proof {
                lemma_find_from_props(s@, open@, 0);
                assert(is_match_at(s@, open@, b as int));
                assert(b + open@.len() <= sl);
            }
            match find_from(s, &close, b + open.len()) {
                None => (Vec::new(), s.clone()),
                Some(e) => {
                    proof {
                        lemma_find_from_props(s@, marker_close(), b + open@.len());
                        assert(is_match_at(s@, marker_close(), e as int));
                        assert(e + 2 <= sl);
                    }
                    let block = subvec(s, b + open.len(), e);
                    let span = subvec(s, b, e + 2);
                    proof {
                        assert(span@.len() > 0);
                    }
                    let rest = remove_all(s, &span);
                    (block, rest)
                },
            }
        },
    }
}

/// The MAIN text once both embedded blocks are extracted: first the BEGIN
/// block is removed, then the END block is sought in what remains.
pub open spec fn spec_main_stripped(m: Seq<u8>) -> Seq<u8> {
    spec_without_block(spec_without_block(m, marker_begin()), marker_end())
}

/// The BEGIN phase's text: an explicitly supplied script as it stands, else
/// the trimmed embedded block (empty when neither is given).
pub open spec fn spec_begin_phase(m: Seq<u8>, explicit: Option<Seq<u8>>) -> Seq<u8> {
    match explicit {
        Some(b) => b,
        None => spec_trim(spec_block_content(m, marker_begin())),
    }
}

/// The END phase's text, chosen like the BEGIN phase's but from the text
/// the BEGIN extraction left behind.
pub open spec fn spec_end_phase(m: Seq<u8>, explicit: Option<Seq<u8>>) -> Seq<u8> {
    match explicit {
        Some(e) => e,
        None => spec_trim(spec_block_content(spec_without_block(m, marker_begin()), marker_end())),
    }
}

/// The framed MAIN body: trimmed, and prefixed with an implicit `return`
/// in evaluate mode (`exec_mode` false).
pub open spec fn spec_framed_main(m: Seq<u8>, exec_mode: bool) -> Seq<u8> {
    if exec_mode {
        spec_trim(spec_main_stripped(m))
    } else {
        txt_return() + spec_trim(spec_main_stripped(m))
    }
}

/// The three phase texts of one run, and whether the raw MAIN text ever
/// names the index variable (which selects the random-access traversal).
pub struct Phases {
    pub begin: Vec<u8>,
    pub main: Vec<u8>,
    pub end: Vec<u8>,
    pub uses_index: bool,
}

/// Prepares the three phase texts from the raw MAIN script and the
/// explicitly supplied BEGIN/END scripts.  Embedded blocks are extracted
/// once here; an explicit script always takes precedence over an embedded
/// block of the same phase, which is still removed from the MAIN body.
pub fn prepare_phases(
    main_raw: &Vec<u8>,
    explicit_begin: &Option<Vec<u8>>,
    explicit_end: &Option<Vec<u8>>,
    exec_mode: bool,
) -> (r: Phases)
    ensures
        r.begin@ == spec_begin_phase(
            main_raw@,
            match explicit_begin {
                Some(b) => Some(b@),
                None => None,
            },
        ),
        r.end@ == spec_end_phase(
            main_raw@,
            match explicit_end {
                Some(e) => Some(e@),
                None => None,
            },
        ),
        r.main@ == spec_framed_main(main_raw@, exec_mode),
        r.uses_index == spec_contains(main_raw@, txt_index_var()),
{
    let bm = begin_marker_vec();
    let em = end_marker_vec();
    let (embedded_begin, main1) = extract_block(main_raw, &bm);
    let (embedded_end, main2) = extract_block(&main1, &em);
    let begin = match explicit_begin {
        Some(b) => b.clone(),
        None => trim_bytes(&embedded_begin),
    };
    let end = match explicit_end {
        Some(e) => e.clone(),
        None => trim_bytes(&embedded_end),
    };
    let trimmed = trim_bytes(&main2);
    let main = if exec_mode {
        trimmed
    } else {
        let mut m = vec![114u8, 101u8, 116u8, 117u8, 114u8, 110u8, 32u8];
        assert(m@ =~= txt_return());
        push_all(&mut m, &trimmed);
        m
    };
    let iv = index_var_vec();
    let uses_index = contains_sub(main_raw, &iv);
    Phases { begin, main, end, uses_index }
}

/// Whether a script text names the index variable; used on scripts loaded
/// from files to decide the traversal mode.
pub fn uses_index_var(script: &Vec<u8>) -> (r: bool)
    ensures
        r == spec_contains(script@, txt_index_var()),
{
    let iv = index_var_vec();
    contains_sub(script, &iv)
}

/// Embedded and explicit phase scripts are interchangeable: when the
/// stripped MAIN text holds no further block pattern, preparing the raw
/// MAIN with no explicit scripts yields the same three phase texts as
/// preparing the stripped MAIN with the extracted, trimmed blocks supplied
/// explicitly — and, the compiler being a pure function of each phase's
/// text, the same compiled phases too.
pub proof fn lemma_embedded_equals_explicit(m: Seq<u8>, exec_mode: bool)
    requires
        spec_main_stripped(spec_main_stripped(m)) == spec_main_stripped(m),
    ensures
        spec_framed_main(spec_main_stripped(m), exec_mode) == spec_framed_main(m, exec_mode),
        spec_begin_phase(spec_main_stripped(m), Some(spec_begin_phase(m, None)))
            == spec_begin_phase(m, None),
        spec_end_phase(spec_main_stripped(m), Some(spec_end_phase(m, None))) == spec_end_phase(
            m,
            None,
        ),
        crate::session::compiled_of(spec_framed_main(spec_main_stripped(m), exec_mode))
            == crate::session::compiled_of(spec_framed_main(m, exec_mode)),
        crate::session::compiled_of(
            spec_begin_phase(spec_main_stripped(m), Some(spec_begin_phase(m, None))),
        ) == crate::session::compiled_of(spec_begin_phase(m, None)),
        crate::session::compiled_of(
            spec_end_phase(spec_main_stripped(m), Some(spec_end_phase(m, None))),
        ) == crate::session::compiled_of(spec_end_phase(m, None)),
{
}

} // verus!
