//! The row traversal engine: the sequential scan and the indexed
//! random-access scan.  Both drive the script phases once per row over one
//! shared variable contract, marshal each result into output or a filter
//! decision, and consult the error budget.  Their contracts relate the
//! records they produce to the sequence of values the evaluator returned,
//! as recorded in the session's interaction history, and state the
//! control-variable protocol they drive.

use vstd::prelude::*;
use crate::text::{views, spec_split_commas, spec_trim, split_commas, trim_bytes};
use crate::value::{
    Computed, SRes, spec_map_fields, spec_keep_row, spec_end_text, txt_sentinel, sentinel_text,
    to_output_fields, to_filter_decision, to_end_text,
};
use crate::session::{
    Session, Event, compile_chunk, set_global_int, set_global_str, set_row_table, read_global_int,
    run_begin_chunk, run_main_chunk, run_end_chunk, note_failed_main,
};
use crate::phases::{Phases, txt_index_var, index_var_vec};
use crate::hostfns::eq_bytes;

verus! {

/// The record sequences held by a vector of records.
pub open spec fn views3(v: Seq<Vec<Vec<u8>>>) -> Seq<Seq<Seq<u8>>> {
    v.map_values(|r: Vec<Vec<u8>>| views(r@))
}

/// `_IDX`
pub open spec fn name_idx() -> Seq<u8> {
    seq![95u8, 73u8, 68u8, 88u8]
}

/// `_ROWCOUNT`
pub open spec fn name_rowcount() -> Seq<u8> {
    seq![95u8, 82u8, 79u8, 87u8, 67u8, 79u8, 85u8, 78u8, 84u8]
}

/// `_LASTROW`
pub open spec fn name_lastrow() -> Seq<u8> {
    seq![95u8, 76u8, 65u8, 83u8, 84u8, 82u8, 79u8, 87u8]
}

/// `col`
pub open spec fn name_col() -> Seq<u8> {
    seq![99u8, 111u8, 108u8]
}

/// `cols`
pub open spec fn name_cols() -> Seq<u8> {
    seq![99u8, 111u8, 108u8, 115u8]
}

/// `{}`
pub open spec fn txt_braces() -> Seq<u8> {
    seq![123u8, 125u8]
}

fn idx_name_vec() -> (v: Vec<u8>)
    ensures
        v@ == name_idx(),
{
    let v = vec![95u8, 73u8, 68u8, 88u8];
    assert(v@ =~= name_idx());
    v
}

fn rowcount_name_vec() -> (v: Vec<u8>)
    ensures
        v@ == name_rowcount(),
{
    let v = vec![95u8, 82u8, 79u8, 87u8, 67u8, 79u8, 85u8, 78u8, 84u8];
    assert(v@ =~= name_rowcount());
    v
}

fn lastrow_name_vec() -> (v: Vec<u8>)
    ensures
        v@ == name_lastrow(),
{
    let v = vec![95u8, 76u8, 65u8, 83u8, 84u8, 82u8, 79u8, 87u8];
    assert(v@ =~= name_lastrow());
    v
}

fn col_name_vec() -> (v: Vec<u8>)
    ensures
        v@ == name_col(),
{
    let v = vec![99u8, 111u8, 108u8];
    assert(v@ =~= name_col());
    v
}

fn cols_name_vec() -> (v: Vec<u8>)
    ensures
        v@ == name_cols(),
{
    let v = vec![99u8, 111u8, 108u8, 115u8];
    assert(v@ =~= name_cols());
    v
}

fn braces_vec() -> (v: Vec<u8>)
    ensures
        v@ == txt_braces(),
{
    let v = vec![123u8, 125u8];
    assert(v@ =~= txt_braces());
    v
}

/// The reserved control-variable names, which user columns never override:
/// the row ordinal, the row total, the random-access cursor, the last row's
/// position, and the row-as-table binding.
pub open spec fn spec_reserved_name(n: Seq<u8>) -> bool {
    n == name_idx() || n == name_rowcount() || n == txt_index_var() || n == name_lastrow() || n
        == name_col()
}

/// Tests a header name against the reserved control-variable names.
pub fn is_reserved_name(n: &Vec<u8>) -> (r: bool)
    ensures
        r == spec_reserved_name(n@),
{
    let idx = idx_name_vec();
    let rc = rowcount_name_vec();
    let ix = index_var_vec();
    let lr = lastrow_name_vec();
    let c = col_name_vec();
    eq_bytes(n, &idx) || eq_bytes(n, &rc) || eq_bytes(n, &ix) || eq_bytes(n, &lr) || eq_bytes(
        n,
        &c,
    )
}

/// How one run is to be driven.
pub struct Opts {
    /// Map mode appends computed fields; filter mode keeps or drops rows.
    pub map_mode: bool,
    /// Suppresses the per-column global variables.
    pub no_globals: bool,
    /// The input's first record is data, not headers.
    pub no_headers: bool,
    /// The error budget's limit; `0` tolerates any number of failures.
    pub max_errors: u64,
}

/// A run-aborting failure.
pub enum Fatal {
    /// The BEGIN phase failed to compile or execute.
    BeginFailed { script: Vec<u8>, err: Vec<u8> },
    /// Map mode over a dataset with headers needs new column names.
    MissingNewColumns,
    /// A MAIN result of an unsupported kind.
    BadValue { desc: Vec<u8> },
    /// An END result of an unsupported kind.
    BadEndValue { desc: Vec<u8> },
    /// The indexed scan could not seek to its starting position.
    SeekFailed { position: u64 },
    /// The evaluator refused an engine-side operation.
    SessionFailed { err: Vec<u8> },
}

/// Mathematical model of a `Fatal`.
pub enum FatalV {
    BeginFailed { script: Seq<u8>, err: Seq<u8> },
    MissingNewColumns,
    BadValue { desc: Seq<u8> },
    BadEndValue { desc: Seq<u8> },
    SeekFailed { position: u64 },
    SessionFailed { err: Seq<u8> },
}

impl View for Fatal {
    type V = FatalV;

    open spec fn view(&self) -> FatalV {
        match self {
            Fatal::BeginFailed { script, err } => FatalV::BeginFailed {
                script: script@,
                err: err@,
            },
            Fatal::MissingNewColumns => FatalV::MissingNewColumns,
            Fatal::BadValue { desc } => FatalV::BadValue { desc: desc@ },
            Fatal::BadEndValue { desc } => FatalV::BadEndValue { desc: desc@ },
            Fatal::SeekFailed { position } => FatalV::SeekFailed { position: *position },
            Fatal::SessionFailed { err } => FatalV::SessionFailed { err: err@ },
        }
    }
}

/// What one run produced: the output records (the extended header first,
/// when headers are in use), the END phase's diagnostic line, the failure
/// count, and the fatal error if one aborted the run.  Output written
/// before an abort is preserved here.
pub struct RunOutput {
    pub records: Vec<Vec<Vec<u8>>>,
    pub diagnostic: Option<Vec<u8>>,
    pub error_count: u64,
    pub fatal: Option<Fatal>,
}

/// The compiled form of the three phases.  `None` stands for an empty
/// phase script, which never runs; a compile failure is kept and surfaces
/// when the phase would run.
pub struct CompiledPhases {
    pub begin: Option<Result<Vec<u8>, Vec<u8>>>,
    pub main: Result<Vec<u8>, Vec<u8>>,
    pub end: Option<Result<Vec<u8>, Vec<u8>>>,
}

/// The mathematical value of one compiled chunk: its bytecode or its
/// compile error, as byte sequences.
pub open spec fn chunk_view(c: Result<Vec<u8>, Vec<u8>>) -> Result<Seq<u8>, Seq<u8>> {
    match c {
        Ok(bc) => Ok(bc@),
        Err(e) => Err(e@),
    }
}

/// Compiles each phase once, before any row is read; the MAIN chunk is
/// reused for every row.  Each compiled phase is exactly what the compiler
/// makes of that phase's text, so equal phase texts always reach equal
/// compiled phases.
pub fn compile_phases(p: &Phases) -> (r: CompiledPhases)
    ensures
        (r.begin is None) <==> p.begin@.len() == 0,
        (r.end is None) <==> p.end@.len() == 0,
        r.begin matches Some(cb) ==> chunk_view(cb) == crate::session::compiled_of(p.begin@),
        chunk_view(r.main) == crate::session::compiled_of(p.main@),
        r.end matches Some(ce) ==> chunk_view(ce) == crate::session::compiled_of(p.end@),
{
    let begin = if p.begin.len() == 0 {
        None
    } else {
        Some(compile_chunk(&p.begin))
    };
    let end = if p.end.len() == 0 {
        None
    } else {
        Some(compile_chunk(&p.end))
    };
    let main = compile_chunk(&p.main);
    CompiledPhases { begin, main, end }
}

/// The declared new column names: the comma-separated pieces, trimmed.
pub open spec fn spec_new_col_names(nc: Seq<u8>) -> Seq<Seq<u8>> {
    spec_split_commas(nc).map_values(|p: Seq<u8>| spec_trim(p))
}

/// The output header row of a map run: the input headers with the new
/// column names appended.
pub open spec fn spec_out_headers(hdr: Seq<Seq<u8>>, nc: Seq<u8>) -> Seq<Seq<u8>> {
    hdr + spec_new_col_names(nc)
}

/// Appends the declared new column names to the headers and counts them.
pub fn build_output_headers(headers: &Vec<Vec<u8>>, new_columns: &Vec<u8>) -> (r: (Vec<Vec<u8>>, u8))
    requires
        spec_split_commas(new_columns@).len() <= 255,
    ensures
        views(r.0@) == spec_out_headers(views(headers@), new_columns@),
        r.1 as nat == spec_split_commas(new_columns@).len(),
{
    let pieces = split_commas(new_columns);
    let mut out: Vec<Vec<u8>> = Vec::new();
    let mut i: usize = 0;
    while i < headers.len()
        invariant
            i <= headers@.len(),
            views(out@) == views(headers@).subrange(0, i as int),
        decreases headers.len() - i,
    {
        out.push(crate::text::subvec(&headers[i], 0, headers[i].len()));
        i += 1;
        proof {
            assert(headers@[i - 1]@.subrange(0, headers@[i - 1]@.len() as int) =~= headers@[i
                - 1]@);
            assert(views(out@) =~= views(headers@).subrange(0, i as int));
        }
    }
    proof {
        assert(views(headers@).subrange(0, headers@.len() as int) =~= views(headers@));
    }
    let mut count: u8 = 0;
    let mut j: usize = 0;
    proof {
        assert(views(pieces@).map_values(|p: Seq<u8>| spec_trim(p)).subrange(0, 0)
            =~= Seq::<Seq<u8>>::empty());
    }
    while j < pieces.len()
        invariant
            j <= pieces@.len(),
            views(pieces@) == spec_split_commas(new_columns@),
            pieces@.len() <= 255,
            count as int == j,
            views(out@) == views(headers@) + spec_new_col_names(new_columns@).subrange(
                0,
                j as int,
            ),
        decreases pieces.len() - j,
    {
        let ghost prev = views(out@);
        out.push(trim_bytes(&pieces[j]));
        count += 1;
        j += 1;
        proof {
            assert(spec_split_commas(new_columns@)[j - 1] == pieces@[j - 1]@);
            assert(spec_new_col_names(new_columns@)[j - 1] == spec_trim(pieces@[j - 1]@));
            assert(views(out@) =~= prev.push(spec_trim(pieces@[j - 1]@)));
            assert(views(out@) =~= views(headers@) + spec_new_col_names(
                new_columns@,
            ).subrange(0, j as int));
        }
    }
    proof {
        assert(spec_new_col_names(new_columns@).subrange(
            0,
            spec_new_col_names(new_columns@).len() as int,
        ) =~= spec_new_col_names(new_columns@));
    }
    (out, count)
}

/// The MAIN replies recorded in an event sequence, oldest first.
pub open spec fn replies_of(evs: Seq<Event>) -> Seq<Result<SRes, Seq<u8>>>
    decreases evs.len(),
{
    if evs.len() == 0 {
        Seq::empty()
    } else {
        let rest = replies_of(evs.drop_last());
        match evs.last() {
            Event::RanMain { outcome } => rest.push(outcome),
            _ => rest,
        }
    }
}

/// The BEGIN outcome recorded in an event sequence, if any.
pub open spec fn begin_outcome_of(evs: Seq<Event>) -> Option<Result<(), Seq<u8>>>
    decreases evs.len(),
{
    if evs.len() == 0 {
        None
    } else {
        match evs.last() {
            Event::RanBegin { outcome } => Some(outcome),
            _ => begin_outcome_of(evs.drop_last()),
        }
    }
}

/// The END outcome recorded in an event sequence, if any.
pub open spec fn end_outcome_of(evs: Seq<Event>) -> Option<Result<SRes, Seq<u8>>>
    decreases evs.len(),
{
    if evs.len() == 0 {
        None
    } else {
        match evs.last() {
            Event::RanEnd { outcome } => Some(outcome),
            _ => end_outcome_of(evs.drop_last()),
        }
    }
}

/// The row-ordinal protocol scan: walking the events, `cur` is the value
/// the ordinal variable was last set to and `mains` counts the MAIN
/// attempts; `ok` holds when every MAIN attempt saw the ordinal equal to
/// its 1-based position.
pub struct IdxScan {
    pub mains: nat,
    pub cur: Option<i64>,
    pub ok: bool,
}

/// Scans an event sequence for the row-ordinal protocol.
pub open spec fn idx_scan(evs: Seq<Event>) -> IdxScan
    decreases evs.len(),
{
    if evs.len() == 0 {
        IdxScan { mains: 0, cur: None, ok: true }
    } else {
        let p = idx_scan(evs.drop_last());
        match evs.last() {
            Event::PutInt { name, value } => if name == name_idx() {
                IdxScan { mains: p.mains, cur: Some(value), ok: p.ok }
            } else {
                p
            },
            Event::RanMain { outcome } => IdxScan {
                mains: p.mains + 1,
                cur: p.cur,
                ok: p.ok && p.cur == Some((p.mains + 1) as i64),
            },
            _ => p,
        }
    }
}

/// The row-exposure protocol scan: walking the events, `mains` counts the
/// MAIN attempts and `ok` holds when every row-as-table rebuild carried
/// exactly the fields of the row about to be evaluated, with the expected
/// header names.
pub struct RowScan {
    pub mains: nat,
    pub ok: bool,
}

/// Scans an event sequence for the row-exposure protocol.
pub open spec fn row_scan(evs: Seq<Event>, rows: Seq<Seq<Seq<u8>>>, names: Seq<Seq<u8>>) -> RowScan
    decreases evs.len(),
{
    if evs.len() == 0 {
        RowScan { mains: 0, ok: true }
    } else {
        let p = row_scan(evs.drop_last(), rows, names);
        match evs.last() {
            Event::PutRow { fields, names: n } => RowScan {
                mains: p.mains,
                ok: p.ok && p.mains < rows.len() && fields == rows[p.mains as int] && n == names,
            },
            Event::RanMain { outcome } => RowScan { mains: p.mains + 1, ok: p.ok },
            _ => p,
        }
    }
}

proof fn lemma_track_row(
    evs_new: Seq<Event>,
    prev: Seq<Event>,
    e: Event,
    rows: Seq<Seq<Seq<u8>>>,
    names: Seq<Seq<u8>>,
)
    requires
        evs_new == prev.push(e),
    ensures
        row_scan(evs_new, rows, names) == (match e {
            Event::PutRow { fields, names: n } => RowScan {
                mains: row_scan(prev, rows, names).mains,
                ok: row_scan(prev, rows, names).ok && row_scan(prev, rows, names).mains
                    < rows.len() && fields == rows[row_scan(prev, rows, names).mains as int] && n
                    == names,
            },
            Event::RanMain { outcome } => RowScan {
                mains: row_scan(prev, rows, names).mains + 1,
                ok: row_scan(prev, rows, names).ok,
            },
            _ => row_scan(prev, rows, names),
        }),
{
    assert(evs_new.drop_last() =~= prev);
    assert(evs_new.last() == e);
}

/// The sequential scan's state after some rows: the data records written,
/// the failures recorded, the rows iterated, whether the error budget
/// halted the loop, and the description of a marshalling fatal if one
/// struck.
pub struct SeqState {
    pub out: Seq<Seq<Seq<u8>>>,
    pub errs: nat,
    pub iterated: nat,
    pub halted: bool,
    pub fatal: Option<Seq<u8>>,
}

/// One sequential iteration: a failed evaluation is counted and, unless
/// the budget is exceeded (which halts the loop, the row unwritten),
/// substituted by the sentinel in map mode or kept in filter mode; a
/// successful one is marshalled, a marshalling fault aborting the run.
pub open spec fn seq_step(
    st: SeqState,
    row: Seq<Seq<u8>>,
    reply: Result<SRes, Seq<u8>>,
    map_mode: bool,
    ncols: u8,
    max_errors: u64,
) -> SeqState {
    match reply {
        Err(_) => {
            let errs = st.errs + 1;
            if max_errors > 0 && errs > max_errors {
                SeqState {
                    out: st.out,
                    errs,
                    iterated: st.iterated + 1,
                    halted: true,
                    fatal: None,
                }
            } else if map_mode {
                SeqState {
                    out: st.out.push(row.push(txt_sentinel())),
                    errs,
                    iterated: st.iterated + 1,
                    halted: false,
                    fatal: None,
                }
            } else {
                SeqState {
                    out: st.out.push(row),
                    errs,
                    iterated: st.iterated + 1,
                    halted: false,
                    fatal: None,
                }
            }
        },
        Ok(res) => if map_mode {
            match spec_map_fields(res, ncols) {
                Ok(fs) => SeqState {
                    out: st.out.push(row + fs),
                    errs: st.errs,
                    iterated: st.iterated + 1,
                    halted: false,
                    fatal: None,
                },
                Err(d) => SeqState {
                    out: st.out,
                    errs: st.errs,
                    iterated: st.iterated + 1,
                    halted: false,
                    fatal: Some(d),
                },
            }
        } else if spec_keep_row(res, false) {
            SeqState {
                out: st.out.push(row),
                errs: st.errs,
                iterated: st.iterated + 1,
                halted: false,
                fatal: None,
            }
        } else {
            SeqState {
                out: st.out,
                errs: st.errs,
                iterated: st.iterated + 1,
                halted: false,
                fatal: None,
            }
        },
    }
}

/// A copy of one record.
pub fn clone_record(r: &Vec<Vec<u8>>) -> (c: Vec<Vec<u8>>)
    ensures
        views(c@) == views(r@),
{
    let mut c: Vec<Vec<u8>> = Vec::new();
    let mut i: usize = 0;
    while i < r.len()
        invariant
            i <= r@.len(),
            views(c@) == views(r@).subrange(0, i as int),
        decreases r.len() - i,
    {
        c.push(r[i].clone());
        i += 1;
        assert(views(c@) =~= views(r@).subrange(0, i as int));
    }
    assert(views(r@).subrange(0, r@.len() as int) =~= views(r@));
    c
}

/// The sequential scan folded over the evaluator's replies: the k-th reply
/// belongs to the k-th row, and nothing follows a halt or a fatal.
pub open spec fn seq_fold(
    rows: Seq<Seq<Seq<u8>>>,
    replies: Seq<Result<SRes, Seq<u8>>>,
    map_mode: bool,
    ncols: u8,
    max_errors: u64,
) -> SeqState
    decreases replies.len(),
{
    if replies.len() == 0 {
        SeqState { out: Seq::empty(), errs: 0, iterated: 0, halted: false, fatal: None }
    } else {
        let p = seq_fold(rows, replies.drop_last(), map_mode, ncols, max_errors);
        if p.halted || p.fatal is Some || p.iterated >= rows.len() {
            p
        } else {
            seq_step(p, rows[p.iterated as int], replies.last(), map_mode, ncols, max_errors)
        }
    }
}

/// The declared column names, or empty text when none were declared.
pub open spec fn opt_text(nc: Option<Seq<u8>>) -> Seq<u8> {
    match nc {
        Some(n) => n,
        None => Seq::empty(),
    }
}

/// The number of declared new columns that bounds a composite result.
pub open spec fn spec_run_ncols(opts: Opts, nc: Option<Seq<u8>>) -> nat {
    if opts.map_mode && !opts.no_headers {
        spec_split_commas(opt_text(nc)).len()
    } else {
        0
    }
}

/// The header records a run writes before any data row.
pub open spec fn spec_header_prefix(hdr: Seq<Seq<u8>>, nc: Option<Seq<u8>>, opts: Opts) -> Seq<
    Seq<Seq<u8>>,
> {
    if opts.no_headers {
        Seq::empty()
    } else if opts.map_mode {
        seq![spec_out_headers(hdr, opt_text(nc))]
    } else {
        seq![hdr]
    }
}

/// The sequential prelude: the `cols` binding, then the ordinal and the
/// row total both zeroed — all before BEGIN may run.
pub open spec fn seq_prelude_events() -> Seq<Event> {
    seq![
        Event::PutStr { name: name_cols(), value: txt_braces() },
        Event::PutInt { name: name_idx(), value: 0 },
        Event::PutInt { name: name_rowcount(), value: 0 },
    ]
}

/// The BEGIN segment: one BEGIN attempt when a compiled BEGIN chunk
/// exists, nothing otherwise.
pub open spec fn begin_events(bo: Option<Result<(), Seq<u8>>>) -> Seq<Event> {
    match bo {
        Some(o) => seq![Event::RanBegin { outcome: o }],
        None => Seq::empty(),
    }
}

/// The per-column bindings of a row's first `k` columns, in column order,
/// reserved names skipped.
pub open spec fn glob_events_upto(hdr: Seq<Seq<u8>>, row: Seq<Seq<u8>>, k: int) -> Seq<Event>
    decreases k,
{
    if k <= 0 {
        Seq::empty()
    } else {
        glob_events_upto(hdr, row, k - 1) + (if spec_reserved_name(hdr[k - 1]) {
            Seq::empty()
        } else {
            seq![Event::PutStr { name: hdr[k - 1], value: row[k - 1] }]
        })
    }
}

/// All per-column bindings of one row: each non-reserved header name bound
/// to the row's field of that column, over the columns both the headers
/// and the row cover; none when the globals are suppressed or there are no
/// headers.
pub open spec fn glob_events(hdr: Seq<Seq<u8>>, row: Seq<Seq<u8>>, opts: Opts) -> Seq<Event> {
    if opts.no_globals || opts.no_headers {
        Seq::empty()
    } else {
        glob_events_upto(
            hdr,
            row,
            if hdr.len() <= row.len() {
                hdr.len() as int
            } else {
                row.len() as int
            },
        )
    }
}

/// One row's event segment: the ordinal set to the row's 1-based position,
/// the row-as-table rebuild from exactly the row's fields, the per-column
/// bindings, then the MAIN attempt.
pub open spec fn row_events(
    hdr: Seq<Seq<u8>>,
    names: Seq<Seq<u8>>,
    row: Seq<Seq<u8>>,
    j: int,
    reply: Result<SRes, Seq<u8>>,
    opts: Opts,
) -> Seq<Event> {
    seq![
        Event::PutInt { name: name_idx(), value: (j + 1) as i64 },
        Event::PutRow { fields: row, names },
    ] + glob_events(hdr, row, opts) + seq![Event::RanMain { outcome: reply }]
}

/// The event segments of the first `i` rows, in read order.
pub open spec fn rows_events_upto(
    rows: Seq<Seq<Seq<u8>>>,
    hdr: Seq<Seq<u8>>,
    names: Seq<Seq<u8>>,
    opts: Opts,
    replies: Seq<Result<SRes, Seq<u8>>>,
    i: int,
) -> Seq<Event>
    decreases i,
{
    if i <= 0 {
        Seq::empty()
    } else {
        rows_events_upto(rows, hdr, names, opts, replies, i - 1) + row_events(
            hdr,
            names,
            rows[i - 1],
            i - 1,
            replies[i - 1],
            opts,
        )
    }
}

/// The sequential END segment: the row total published exactly once, to
/// the rows actually iterated, immediately before the END attempt (which
/// is absent when the END text never compiled); empty when no END phase
/// was given.  Nothing else — in particular no further ordinal binding —
/// stands after the loop.
pub open spec fn end_events(
    cp_end: Option<Result<Vec<u8>, Vec<u8>>>,
    iterated: nat,
    eo: Option<Result<SRes, Seq<u8>>>,
) -> Seq<Event> {
    match cp_end {
        None => Seq::empty(),
        Some(ec) => seq![Event::PutInt { name: name_rowcount(), value: iterated as i64 }] + (
        match eo {
            Some(o) => seq![Event::RanEnd { outcome: o }],
            None => Seq::empty(),
        }),
    }
}

/// Each fatal outcome is tied to its cause: the column gate to its inputs,
/// a BEGIN failure to the failed compile or run, a marshalling fault to
/// the fold, an END fault to the END outcome; the sequential scan never
/// fails a seek; only an evaluator refusal is unconditional.
pub open spec fn seq_fatal_cause(
    evs: Seq<Event>,
    cp: CompiledPhases,
    begin_text: Seq<u8>,
    rows: Seq<Seq<Seq<u8>>>,
    nc: Option<Seq<u8>>,
    opts: Opts,
    r: RunOutput,
) -> bool {
    match r.fatal {
        None => true,
        Some(f) => match f@ {
            FatalV::MissingNewColumns => opts.map_mode && !opts.no_headers && nc is None,
            FatalV::BeginFailed { script, err } => script == begin_text && ((
            cp.begin matches Some(Err(ce)) && err == ce@) || begin_outcome_of(evs) == Some(
                Err::<(), Seq<u8>>(err),
            )),
            FatalV::BadValue { desc } => seq_fold(
                rows,
                replies_of(evs),
                opts.map_mode,
                spec_run_ncols(opts, nc) as u8,
                opts.max_errors,
            ).fatal == Some(desc),
            FatalV::BadEndValue { desc } => (cp.end matches Some(ec) && ec is Ok) && (
            end_outcome_of(evs) matches Some(Ok(res)) && spec_end_text(res) == Err::<
                Seq<u8>,
                Seq<u8>,
            >(desc)),
            FatalV::SeekFailed { .. } => false,
            FatalV::SessionFailed { .. } => true,
        },
    }
}

/// The outcome cases of one sequential run, over the events it drove.
pub open spec fn seq_run_cases(
    evs: Seq<Event>,
    cp: CompiledPhases,
    begin_text: Seq<u8>,
    rows: Seq<Seq<Seq<u8>>>,
    hdr: Seq<Seq<u8>>,
    nc: Option<Seq<u8>>,
    opts: Opts,
    r: RunOutput,
) -> bool {
    let replies = replies_of(evs);
    if cp.begin matches Some(b) && b is Err {
        // the BEGIN script did not compile: fatal, nothing processed
        &&& cp.begin matches Some(Err(ce)) && r.fatal matches Some(f) && f@
            == (FatalV::BeginFailed { script: begin_text, err: ce@ })
        &&& r.records@.len() == 0
        &&& r.error_count == 0
        &&& r.diagnostic is None
        &&& evs == seq_prelude_events()
    } else if begin_outcome_of(evs) matches Some(bo) && bo is Err {
        // the BEGIN script failed to execute: fatal, nothing processed
        &&& begin_outcome_of(evs) matches Some(Err(e)) && r.fatal matches Some(f) && f@
            == (FatalV::BeginFailed { script: begin_text, err: e })
        &&& r.records@.len() == 0
        &&& r.error_count == 0
        &&& r.diagnostic is None
        &&& evs == seq_prelude_events() + begin_events(begin_outcome_of(evs))
    } else if opts.map_mode && !opts.no_headers && nc is None {
        // map mode over headers demands new column names
        &&& r.fatal matches Some(f) && f@ is MissingNewColumns
        &&& r.records@.len() == 0
        &&& r.error_count == 0
        &&& r.diagnostic is None
        &&& evs == seq_prelude_events() + begin_events(begin_outcome_of(evs))
    } else {
        let m = seq_fold(rows, replies, opts.map_mode, spec_run_ncols(opts, nc) as u8,
            opts.max_errors);
        let names = if opts.no_headers {
            Seq::<Seq<u8>>::empty()
        } else {
            hdr
        };
        &&& (cp.begin is None <==> begin_outcome_of(evs) is None)
        &&& views3(r.records@) == spec_header_prefix(hdr, nc, opts) + m.out
        &&& r.error_count as nat == m.errs
        &&& m.iterated == replies.len()
        &&& (m.halted || m.fatal is Some || m.iterated == rows.len())
        // the whole event trace is exactly the driven protocol: prelude,
        // BEGIN, one segment per row, and the END segment (absent after a
        // marshalling fault)
        &&& evs == seq_prelude_events() + begin_events(begin_outcome_of(evs)) + rows_events_upto(
            rows,
            hdr,
            names,
            opts,
            replies,
            replies.len() as int,
        ) + (if m.fatal is Some {
            Seq::<Event>::empty()
        } else {
            end_events(cp.end, m.iterated, end_outcome_of(evs))
        })
        &&& match m.fatal {
            Some(d) => {
                // a marshalling fault aborted the run; END never ran
                &&& r.fatal matches Some(f) && f@ == (FatalV::BadValue { desc: d })
                &&& r.diagnostic is None
                &&& end_outcome_of(evs) is None
            },
            None => match cp.end {
                None => {
                    &&& r.fatal is None
                    &&& r.diagnostic is None
                    &&& end_outcome_of(evs) is None
                },
                Some(ec) => {
                    &&& match ec {
                        Err(_) => {
                            &&& r.fatal is None
                            &&& r.diagnostic matches Some(dg) && dg@ == txt_sentinel()
                            &&& end_outcome_of(evs) is None
                        },
                        Ok(_) => match end_outcome_of(evs) {
                            Some(Err(_)) => {
                                &&& r.fatal is None
                                &&& r.diagnostic matches Some(dg) && dg@ == txt_sentinel()
                            },
                            Some(Ok(res)) => match spec_end_text(res) {
                                Ok(t) => {
                                    &&& r.fatal is None
                                    &&& r.diagnostic matches Some(dg) && dg@ == t
                                },
                                Err(d) => {
                                    &&& r.fatal matches Some(f) && f@ == (FatalV::BadEndValue {
                                        desc: d,
                                    })
                                    &&& r.diagnostic is None
                                },
                            },
                            None => false,
                        },
                    }
                },
            },
        }
    }
}

/// The whole contract of one sequential run: the history only grows; the
/// row-ordinal protocol holds of what was driven (each MAIN attempt saw
/// the ordinal equal to its 1-based position); and, unless the evaluator
/// refused an engine-side operation, the run's outcome follows the fold of
/// the evaluator's replies.
pub open spec fn seq_run_post(
    old_hist: Seq<Event>,
    new_hist: Seq<Event>,
    cp: CompiledPhases,
    begin_text: Seq<u8>,
    rows: Seq<Seq<Seq<u8>>>,
    hdr: Seq<Seq<u8>>,
    nc: Option<Seq<u8>>,
    opts: Opts,
    r: RunOutput,
) -> bool {
    &&& new_hist.len() >= old_hist.len()
    &&& new_hist.subrange(0, old_hist.len() as int) == old_hist
    &&& idx_scan(new_hist.skip(old_hist.len() as int)).ok
    &&& row_scan(
        new_hist.skip(old_hist.len() as int),
        rows,
        if opts.no_headers {
            Seq::empty()
        } else {
            hdr
        },
    ).ok
    &&& seq_fatal_cause(new_hist.skip(old_hist.len() as int), cp, begin_text, rows, nc, opts, r)
    &&& (seq_refusal_cases(new_hist.skip(old_hist.len() as int), rows, hdr, nc, opts, r)
        || seq_run_cases(new_hist.skip(old_hist.len() as int), cp, begin_text, rows, hdr, nc, opts, r))
}

/// What still holds when the evaluator refused an engine-side operation
/// (the one outcome no input rules out): the run reports the refusal, the
/// records written so far follow the fold of the replies recorded so far —
/// with the header record present or not yet written — the failure count
/// follows the fold, and no diagnostic was produced.
pub open spec fn seq_refusal_cases(
    evs: Seq<Event>,
    rows: Seq<Seq<Seq<u8>>>,
    hdr: Seq<Seq<u8>>,
    nc: Option<Seq<u8>>,
    opts: Opts,
    r: RunOutput,
) -> bool {
    let m = seq_fold(rows, replies_of(evs), opts.map_mode, spec_run_ncols(opts, nc) as u8,
        opts.max_errors);
    &&& r.fatal matches Some(f) && f@ is SessionFailed
    &&& (views3(r.records@) == spec_header_prefix(hdr, nc, opts) + m.out || views3(r.records@)
        == m.out)
    &&& r.error_count as nat == m.errs
    &&& r.diagnostic is None
}

/// Re-running is reproducible as far as the engine is concerned: the
/// engine holds no state of its own across runs, and the compiler is a
/// pure function of each phase's text, so two sequential runs whose
/// compiled phases agree (as they must when the phase texts are equal —
/// see `compile_phases`) and whose evaluators produced the same BEGIN,
/// MAIN and END outcomes yield byte-identical records, the same failure
/// count, and an identical diagnostic line.  (Whether the evaluator
/// repeats its outcomes is the evaluator's affair, outside this library.)
pub proof fn lemma_rerun_identical(
    evs1: Seq<Event>,
    evs2: Seq<Event>,
    cp1: CompiledPhases,
    cp2: CompiledPhases,
    begin_text: Seq<u8>,
    rows: Seq<Seq<Seq<u8>>>,
    hdr: Seq<Seq<u8>>,
    nc: Option<Seq<u8>>,
    opts: Opts,
    r1: RunOutput,
    r2: RunOutput,
)
    requires
        (match (cp1.begin, cp2.begin) {
            (Some(a), Some(b)) => chunk_view(a) == chunk_view(b),
            (None, None) => true,
            _ => false,
        }),
        chunk_view(cp1.main) == chunk_view(cp2.main),
        (match (cp1.end, cp2.end) {
            (Some(a), Some(b)) => chunk_view(a) == chunk_view(b),
            (None, None) => true,
            _ => false,
        }),
        replies_of(evs1) == replies_of(evs2),
        begin_outcome_of(evs1) == begin_outcome_of(evs2),
        end_outcome_of(evs1) == end_outcome_of(evs2),
        seq_run_cases(evs1, cp1, begin_text, rows, hdr, nc, opts, r1),
        seq_run_cases(evs2, cp2, begin_text, rows, hdr, nc, opts, r2),
    ensures
        views3(r1.records@) == views3(r2.records@),
        r1.error_count == r2.error_count,
        (match (r1.diagnostic, r2.diagnostic) {
            (Some(a), Some(b)) => a@ == b@,
            (None, None) => true,
            _ => false,
        }),
{
}

proof fn lemma_hist_push(h0: Seq<Event>, prev: Seq<Event>, h: Seq<Event>, e: Event)
    requires
        h == (h0 + prev).push(e),
    ensures
        h == h0 + prev.push(e),
        prev.push(e).drop_last() == prev,
        prev.push(e).last() == e,
{
    assert(h =~= h0 + prev.push(e));
    assert(prev.push(e).drop_last() =~= prev);
}

proof fn lemma_track_push(evs_new: Seq<Event>, prev: Seq<Event>, e: Event)
    requires
        evs_new == prev.push(e),
    ensures
        replies_of(evs_new) == (match e {
            Event::RanMain { outcome } => replies_of(prev).push(outcome),
            _ => replies_of(prev),
        }),
        begin_outcome_of(evs_new) == (match e {
            Event::RanBegin { outcome } => Some(outcome),
            _ => begin_outcome_of(prev),
        }),
        end_outcome_of(evs_new) == (match e {
            Event::RanEnd { outcome } => Some(outcome),
            _ => end_outcome_of(prev),
        }),
        idx_scan(evs_new) == (match e {
            Event::PutInt { name, value } => if name == name_idx() {
                IdxScan { mains: idx_scan(prev).mains, cur: Some(value), ok: idx_scan(prev).ok }
            } else {
                idx_scan(prev)
            },
            Event::RanMain { outcome } => IdxScan {
                mains: idx_scan(prev).mains + 1,
                cur: idx_scan(prev).cur,
                ok: idx_scan(prev).ok && idx_scan(prev).cur == Some(
                    (idx_scan(prev).mains + 1) as i64,
                ),
            },
            _ => idx_scan(prev),
        }),
{
    assert(evs_new.drop_last() =~= prev);
    assert(evs_new.last() == e);
}

proof fn lemma_seq_fold_empty(rows: Seq<Seq<Seq<u8>>>, mm: bool, nc: u8, mx: u64)
    ensures
        seq_fold(rows, Seq::<Result<SRes, Seq<u8>>>::empty(), mm, nc, mx) == (SeqState {
            out: Seq::<Seq<Seq<u8>>>::empty(),
            errs: 0,
            iterated: 0,
            halted: false,
            fatal: None,
        }),
{
}

proof fn lemma_rows_events_agree(
    rows: Seq<Seq<Seq<u8>>>,
    hdr: Seq<Seq<u8>>,
    names: Seq<Seq<u8>>,
    opts: Opts,
    r1: Seq<Result<SRes, Seq<u8>>>,
    r2: Seq<Result<SRes, Seq<u8>>>,
    i: int,
)
    requires
        forall|j: int| 0 <= j < i ==> r1[j] == r2[j],
    ensures
        rows_events_upto(rows, hdr, names, opts, r1, i) == rows_events_upto(
            rows,
            hdr,
            names,
            opts,
            r2,
            i,
        ),
    decreases i,
{
    if i > 0 {
        lemma_rows_events_agree(rows, hdr, names, opts, r1, r2, i - 1);
    }
}

proof fn lemma_row_segment_close(
    evs: Seq<Event>,
    seg0: Seq<Event>,
    pre0: Seq<Event>,
    rows: Seq<Seq<Seq<u8>>>,
    hdr: Seq<Seq<u8>>,
    names: Seq<Seq<u8>>,
    opts: Opts,
    rls0: Seq<Result<SRes, Seq<u8>>>,
    rls: Seq<Result<SRes, Seq<u8>>>,
    i: int,
    idxv: i64,
)
    requires
        0 <= i < rows.len(),
        seg0 == pre0 + rows_events_upto(rows, hdr, names, opts, rls0, i),
        rls.len() == i + 1,
        rls.drop_last() == rls0,
        rls0.len() == i,
        idxv == i + 1,
        evs == seg0 + seq![
            Event::PutInt { name: name_idx(), value: idxv },
            Event::PutRow { fields: rows[i], names },
        ] + glob_events(hdr, rows[i], opts) + seq![Event::RanMain { outcome: rls.last() }],
    ensures
        evs == pre0 + rows_events_upto(rows, hdr, names, opts, rls, i + 1),
{
    lemma_rows_events_agree(rows, hdr, names, opts, rls0, rls, i);
    assert(rls[i] == rls.last());
    assert(row_events(hdr, names, rows[i], i, rls[i], opts) =~= seq![
        Event::PutInt { name: name_idx(), value: idxv },
        Event::PutRow { fields: rows[i], names },
    ] + glob_events(hdr, rows[i], opts) + seq![Event::RanMain { outcome: rls.last() }]);
    assert(evs =~= pre0 + rows_events_upto(rows, hdr, names, opts, rls, i + 1));
}

proof fn lemma_end_segment_close(
    evs: Seq<Event>,
    body: Seq<Event>,
    cp_end: Option<Result<Vec<u8>, Vec<u8>>>,
    iterated: nat,
    itv: i64,
    eo: Option<Result<SRes, Seq<u8>>>,
)
    requires
        itv == iterated,
        cp_end is Some,
        (match eo {
            Some(o) => evs == body + seq![
                Event::PutInt { name: name_rowcount(), value: itv },
                Event::RanEnd { outcome: o },
            ],
            None => evs == body + seq![Event::PutInt { name: name_rowcount(), value: itv }],
        }),
    ensures
        evs == body + end_events(cp_end, iterated, eo),
{
    match eo {
        Some(o) => {
            assert(end_events(cp_end, iterated, eo) =~= seq![
                Event::PutInt { name: name_rowcount(), value: itv },
                Event::RanEnd { outcome: o },
            ]);
        },
        None => {
            assert(end_events(cp_end, iterated, eo) =~= seq![
                Event::PutInt { name: name_rowcount(), value: itv },
            ]);
        },
    }
}

proof fn lemma_skip_prefix(h0: Seq<Event>, evs: Seq<Event>, h: Seq<Event>)
    requires
        h == h0 + evs,
    ensures
        h.len() >= h0.len(),
        h.subrange(0, h0.len() as int) == h0,
        h.skip(h0.len() as int) == evs,
{
    assert(h.subrange(0, h0.len() as int) =~= h0);
    assert(h.skip(h0.len() as int) =~= evs);
}

/// A record copy extended with computed fields.
fn record_with_fields(row: &Vec<Vec<u8>>, fields: &Vec<Vec<u8>>) -> (r: Vec<Vec<u8>>)
    ensures
        views(r@) == views(row@) + views(fields@),
{
    let mut r = clone_record(row);
    assert(views(r@) =~= views(row@) + views(fields@).subrange(0, 0));
    let mut k: usize = 0;
    while k < fields.len()
        invariant
            k <= fields@.len(),
            views(r@) == views(row@) + views(fields@).subrange(0, k as int),
        decreases fields.len() - k,
    {
        let ghost prev = views(r@);
        let fv = crate::text::subvec(&fields[k], 0, fields[k].len());
        proof {
            assert(fields@[k as int]@.subrange(0, fields@[k as int]@.len() as int)
                =~= fields@[k as int]@);
        }
        r.push(fv);
        k += 1;
        proof {
            assert(views(r@) =~= prev.push(fields@[k - 1]@));
            assert(views(fields@)[k - 1] == fields@[k - 1]@);
            assert(prev.push(fields@[k - 1]@) =~= views(row@) + views(fields@).subrange(
                0,
                k as int,
            ));
        }
    }
    assert(views(fields@).subrange(0, fields@.len() as int) =~= views(fields@));
    r
}

/// A record copy with the sentinel failure text appended.
fn record_with_sentinel(row: &Vec<Vec<u8>>) -> (r: Vec<Vec<u8>>)
    ensures
        views(r@) == views(row@).push(txt_sentinel()),
{
    let mut r = clone_record(row);
    r.push(sentinel_text());
    assert(views(r@) =~= views(row@).push(txt_sentinel()));
    r
}

/// Runs one whole sequential scan: BEGIN, one MAIN evaluation per row in
/// read order, and END.  The row ordinal starts at `0` for BEGIN and holds
/// each row's 1-based position during its MAIN run; the row total is `0`
/// until all iteration has ended and is published just before END.

/// One sequential iteration: publishes the ordinal, rebuilds the row
/// bindings, runs MAIN for the row at hand and accounts the outcome.  The
/// contract is the sequential loop's invariant, advanced by one row; an
/// `Err` is the evaluator refusing an engine-side operation, with the
/// accumulated state still following the fold.
#[verifier::loop_isolation(false)]
#[verifier::rlimit(100)]
#[verifier::spinoff_prover]
fn seq_one_row(
    s: &mut Session,
    cp: &CompiledPhases,
    rows: &Vec<Vec<Vec<u8>>>,
    headers: &Vec<Vec<u8>>,
    empty_names: &Vec<Vec<u8>>,
    opts: &Opts,
    ncols: u8,
    i: usize,
    records: &mut Vec<Vec<Vec<u8>>>,
    errs: &mut u64,
    halted: &mut bool,
    fatal_desc: &mut Option<Vec<u8>>,
    Ghost(h0): Ghost<Seq<Event>>,
    Ghost(pre0): Ghost<Seq<Event>>,
    Ghost(hdrpfx): Ghost<Seq<Seq<Seq<u8>>>>,
    g_evs: &mut Ghost<Seq<Event>>,
    g_rls: &mut Ghost<Seq<Result<SRes, Seq<u8>>>>,
) -> (r: Result<(), Vec<u8>>)
    requires
        rows@.len() < 0x7fff_ffff_ffff_ffffu64,
        i < rows@.len(),
        empty_names@.len() == 0,
        old(s).history@ == h0 + old(g_evs)@,
        replies_of(old(g_evs)@) == old(g_rls)@,
        old(g_rls)@.len() == i,
        old(g_evs)@ == pre0 + rows_events_upto(
            views3(rows@),
            views(headers@),
            if opts.no_headers { Seq::<Seq<u8>>::empty() } else { views(headers@) },
            *opts,
            old(g_rls)@,
            i as int,
        ),
        end_outcome_of(old(g_evs)@) is None,
        idx_scan(old(g_evs)@).ok,
        idx_scan(old(g_evs)@).mains == i as nat,
        idx_scan(old(g_evs)@).cur == Some(i as i64),
        row_scan(old(g_evs)@, views3(rows@), if opts.no_headers { Seq::<Seq<u8>>::empty() } else { views(headers@) }).ok,
        row_scan(old(g_evs)@, views3(rows@), if opts.no_headers { Seq::<Seq<u8>>::empty() } else { views(headers@) }).mains == i as nat,
        *old(errs) <= i,
        !*old(halted),
        *old(fatal_desc) is None,
        ({
            let m = seq_fold(views3(rows@), old(g_rls)@, opts.map_mode, ncols, opts.max_errors);
            &&& m.iterated == i as nat
            &&& !m.halted
            &&& m.errs == *old(errs) as nat
            &&& views3(old(records)@) == hdrpfx + m.out
            &&& m.fatal is None
        }),
    ensures
        final(s).history@ == h0 + final(g_evs)@,
        replies_of(final(g_evs)@) == final(g_rls)@,
        begin_outcome_of(final(g_evs)@) == begin_outcome_of(old(g_evs)@),
        end_outcome_of(final(g_evs)@) is None,
        idx_scan(final(g_evs)@).ok,
        row_scan(
            final(g_evs)@,
            views3(rows@),
            if opts.no_headers { Seq::<Seq<u8>>::empty() } else { views(headers@) },
        ).ok,
        ({
            let m = seq_fold(views3(rows@), final(g_rls)@, opts.map_mode, ncols, opts.max_errors);
            &&& m.errs == *final(errs) as nat
            &&& views3(final(records)@) == hdrpfx + m.out
        }),
        r matches Ok(u) ==> {
            let m = seq_fold(views3(rows@), final(g_rls)@, opts.map_mode, ncols, opts.max_errors);
            &&& final(g_rls)@.len() == i + 1
            &&& final(g_evs)@ == pre0 + rows_events_upto(
                views3(rows@),
                views(headers@),
                if opts.no_headers { Seq::<Seq<u8>>::empty() } else { views(headers@) },
                *opts,
                final(g_rls)@,
                (i + 1) as int,
            )
            &&& idx_scan(final(g_evs)@).mains == (i + 1) as nat
            &&& idx_scan(final(g_evs)@).cur == Some((i + 1) as i64)
            &&& row_scan(
                final(g_evs)@,
                views3(rows@),
                if opts.no_headers { Seq::<Seq<u8>>::empty() } else { views(headers@) },
            ).mains == (i + 1) as nat
            &&& *final(errs) <= i + 1
            &&& m.iterated == (i + 1) as nat
            &&& m.halted == *final(halted)
            &&& (match *final(fatal_desc) {
                Some(d) => m.fatal == Some(d@),
                None => m.fatal is None,
            })
        },
        r matches Err(e) ==> *final(fatal_desc) is None,
{
    let ghost rows_v = views3(rows@);
    let ghost hv = views(headers@);
    let ghost gnames: Seq<Seq<u8>> = if opts.no_headers {
        Seq::<Seq<u8>>::empty()
    } else {
        views(headers@)
    };
    let ghost mut evs = g_evs@;
    let ghost mut rls = g_rls@;
    let n_idx = idx_name_vec();
    let row = &rows[i];
    let ghost seg0 = evs;
    // publish the 1-based row ordinal
    let idxv: i64 = (i as i64) + 1;
    match set_global_int(s, &n_idx, idxv) {
        Ok(_) => {
            proof {
                let pe = Event::PutInt { name: name_idx(), value: idxv };
                let pv = evs;
                lemma_hist_push(h0, evs, s.history@, pe);
                evs = evs.push(pe);
                lemma_track_push(evs, pv, pe);
                lemma_track_row(evs, pv, pe, rows_v, gnames);
                assert(evs =~= seg0 + seq![pe]);
            }
        },
        Err(e) => {
            proof {
                lemma_skip_prefix(h0, evs, s.history@);
            }
            proof {
                *g_evs = Ghost(evs);
                *g_rls = Ghost(rls);
            }
            return Err(e);
        },
    }
    // rebuild the row-as-table binding
    let col_names = if opts.no_headers {
        &empty_names
    } else {
        headers
    };
    match set_row_table(s, row, col_names) {
        Ok(_) => {
            proof {
                let pe = Event::PutRow { fields: views(row@), names: views(col_names@) };
                let pv = evs;
                assert(rows_v[i as int] == views(rows@[i as int]@));
                assert(views(col_names@) =~= gnames);
                lemma_hist_push(h0, evs, s.history@, pe);
                evs = evs.push(pe);
                lemma_track_push(evs, pv, pe);
                lemma_track_row(evs, pv, pe, rows_v, gnames);
                assert(evs =~= seg0 + seq![
                    Event::PutInt { name: name_idx(), value: idxv },
                    Event::PutRow { fields: rows_v[i as int], names: gnames },
                ]);
            }
        },
        Err(e) => {
            proof {
                lemma_skip_prefix(h0, evs, s.history@);
            }
            proof {
                *g_evs = Ghost(evs);
                *g_rls = Ghost(rls);
            }
            return Err(e);
        },
    }
    // rebuild the per-column globals, reserved names excepted
    if !opts.no_globals && !opts.no_headers {
        let kmax = if headers.len() < row.len() {
            headers.len()
        } else {
            row.len()
        };
        let mut k: usize = 0;
        proof {
            assert(evs =~= seg0 + seq![
                Event::PutInt { name: name_idx(), value: idxv },
                Event::PutRow { fields: rows_v[i as int], names: gnames },
            ] + glob_events_upto(hv, rows_v[i as int], 0));
        }
        while k < kmax
            invariant
                k <= kmax,
                kmax <= headers@.len() && kmax <= rows@[i as int]@.len(),
                i < rows@.len(),
                s.history@ == h0 + evs,
                replies_of(evs) == rls,
                begin_outcome_of(evs) == begin_outcome_of(old(g_evs)@),
                end_outcome_of(evs) is None,
                idx_scan(evs).ok,
                idx_scan(evs).mains == i as nat,
                idx_scan(evs).cur == Some((i + 1) as i64),
                row_scan(evs, rows_v, gnames).ok,
                row_scan(evs, rows_v, gnames).mains == i as nat,
                evs == seg0 + seq![
                    Event::PutInt { name: name_idx(), value: idxv },
                    Event::PutRow { fields: rows_v[i as int], names: gnames },
                ] + glob_events_upto(hv, rows_v[i as int], k as int),
            decreases kmax - k,
        {
            proof {
                assert(hv[k as int] == headers@[k as int]@);
                assert(rows_v[i as int][k as int] == rows@[i as int]@[k as int]@);
            }
            if !is_reserved_name(&headers[k]) {
                match set_global_str(s, &headers[k], &row[k]) {
                    Ok(_) => {
                        proof {
                            let pe = Event::PutStr {
                                name: headers@[k as int]@,
                                value: rows@[i as int]@[k as int]@,
                            };
                            let pv = evs;
                            lemma_hist_push(h0, evs, s.history@, pe);
                            evs = evs.push(pe);
                            lemma_track_push(evs, pv, pe);
                            lemma_track_row(evs, pv, pe, rows_v, gnames);
                            assert(glob_events_upto(hv, rows_v[i as int], k + 1)
                                =~= glob_events_upto(hv, rows_v[i as int], k as int)
                                + seq![pe]);
                            assert(evs =~= seg0 + seq![
                                Event::PutInt { name: name_idx(), value: idxv },
                                Event::PutRow { fields: rows_v[i as int], names: gnames },
                            ] + glob_events_upto(hv, rows_v[i as int], k + 1));
                        }
                    },
                    Err(e) => {
                        proof {
                            lemma_skip_prefix(h0, evs, s.history@);
                        }
                        proof {
                *g_evs = Ghost(evs);
                *g_rls = Ghost(rls);
            }
            return Err(e);
                    },
                }
            } else {
                proof {
                    assert(glob_events_upto(hv, rows_v[i as int], k + 1)
                        =~= glob_events_upto(hv, rows_v[i as int], k as int));
                }
            }
            k += 1;
        }
    }
    proof {
        assert(evs =~= seg0 + seq![
            Event::PutInt { name: name_idx(), value: idxv },
            Event::PutRow { fields: rows_v[i as int], names: gnames },
        ] + glob_events(hv, rows_v[i as int], *opts));
    }
    // run MAIN for this row, then account the outcome: a failure is
    // counted against the budget, a success marshalled into output or
    // a filter decision
    let ghost rls0 = rls;
    let ghost mprev = seq_fold(rows_v, rls0, opts.map_mode, ncols, opts.max_errors);
    proof {
        assert(mprev.iterated == i as nat && !mprev.halted && mprev.fatal is None);
        assert(rows_v[i as int] == views(rows@[i as int]@));
    }
    let mut row_err = false;
    match &cp.main {
        Ok(bc) => match run_main_chunk(s, bc) {
            Ok(c) => {
                proof {
                    let pe = Event::RanMain { outcome: Ok(c@) };
                    let pv = evs;
                    lemma_hist_push(h0, evs, s.history@, pe);
                    evs = evs.push(pe);
                    lemma_track_push(evs, pv, pe);
                    lemma_track_row(evs, pv, pe, rows_v, gnames);
                    rls = rls.push(Ok(c@));
                    assert(rls.drop_last() =~= rls0);
                    assert(seq_fold(rows_v, rls, opts.map_mode, ncols, opts.max_errors)
                        == seq_step(mprev, rows_v[i as int], Ok(c@), opts.map_mode, ncols,
                    opts.max_errors));
                    assert(rls.last() == Ok::<SRes, Seq<u8>>(c@));
                    assert(evs =~= seg0 + seq![
                        Event::PutInt { name: name_idx(), value: idxv },
                        Event::PutRow { fields: rows_v[i as int], names: gnames },
                    ] + glob_events(hv, rows_v[i as int], *opts) + seq![
                        Event::RanMain { outcome: rls.last() },
                    ]);
                    lemma_row_segment_close(evs, seg0, pre0, rows_v, hv, gnames, *opts, rls0,
                        rls, i as int, idxv);
                }
                if opts.map_mode {
                    match to_output_fields(&c, ncols) {
                        Ok(fields) => {
                            let ghost recs0 = views3(records@);
                            records.push(record_with_fields(row, &fields));
                            proof {
                                assert(views3(records@) =~= recs0.push(
                                    views(row@) + views(fields@),
                                ));
                                assert(views3(records@) =~= hdrpfx + seq_fold(
                                    rows_v,
                                    rls,
                                    opts.map_mode,
                                    ncols,
                                    opts.max_errors,
                                ).out);
                            }
                        },
                        Err(d) => {
                            *fatal_desc = Some(d);
                        },
                    }
                } else {
                    if to_filter_decision(&c, false) {
                        let ghost recs0 = views3(records@);
                        records.push(clone_record(row));
                        proof {
                            assert(views3(records@) =~= recs0.push(views(row@)));
                            assert(views3(records@) =~= hdrpfx + seq_fold(
                                rows_v,
                                rls,
                                opts.map_mode,
                                ncols,
                                opts.max_errors,
                            ).out);
                        }
                    }
                }
            },
            Err(e) => {
                proof {
                    let pe = Event::RanMain { outcome: Err(e@) };
                    let pv = evs;
                    lemma_hist_push(h0, evs, s.history@, pe);
                    evs = evs.push(pe);
                    lemma_track_push(evs, pv, pe);
                    lemma_track_row(evs, pv, pe, rows_v, gnames);
                    rls = rls.push(Err(e@));
                    assert(rls.drop_last() =~= rls0);
                    assert(rls.last() is Err);
                    assert(evs =~= seg0 + seq![
                        Event::PutInt { name: name_idx(), value: idxv },
                        Event::PutRow { fields: rows_v[i as int], names: gnames },
                    ] + glob_events(hv, rows_v[i as int], *opts) + seq![
                        Event::RanMain { outcome: rls.last() },
                    ]);
                    lemma_row_segment_close(evs, seg0, pre0, rows_v, hv, gnames, *opts, rls0,
                        rls, i as int, idxv);
                }
                row_err = true;
            },
        },
        Err(ce) => {
            note_failed_main(s, ce);
            proof {
                let pe = Event::RanMain { outcome: Err(ce@) };
                let pv = evs;
                lemma_hist_push(h0, evs, s.history@, pe);
                evs = evs.push(pe);
                lemma_track_push(evs, pv, pe);
                lemma_track_row(evs, pv, pe, rows_v, gnames);
                rls = rls.push(Err(ce@));
                assert(rls.drop_last() =~= rls0);
                assert(rls.last() is Err);
                assert(evs =~= seg0 + seq![
                    Event::PutInt { name: name_idx(), value: idxv },
                    Event::PutRow { fields: rows_v[i as int], names: gnames },
                ] + glob_events(hv, rows_v[i as int], *opts) + seq![
                    Event::RanMain { outcome: rls.last() },
                ]);
                lemma_row_segment_close(evs, seg0, pre0, rows_v, hv, gnames, *opts, rls0,
                    rls, i as int, idxv);
            }
            row_err = true;
        },
    }
    if row_err {
        proof {
            assert(seq_fold(rows_v, rls, opts.map_mode, ncols, opts.max_errors) == seq_step(
                mprev,
                rows_v[i as int],
                rls.last(),
                opts.map_mode,
                ncols,
                opts.max_errors,
            ));
        }
        *errs = *errs + 1;
        if opts.max_errors > 0 && *errs > opts.max_errors {
            *halted = true;
        } else if opts.map_mode {
            let ghost recs0 = views3(records@);
            records.push(record_with_sentinel(row));
            proof {
                assert(views3(records@) =~= recs0.push(views(row@).push(txt_sentinel())));
                assert(views3(records@) =~= hdrpfx + seq_fold(
                    rows_v,
                    rls,
                    opts.map_mode,
                    ncols,
                    opts.max_errors,
                ).out);
            }
        } else {
            let ghost recs0 = views3(records@);
            records.push(clone_record(row));
            proof {
                assert(views3(records@) =~= recs0.push(views(row@)));
                assert(views3(records@) =~= hdrpfx + seq_fold(
                    rows_v,
                    rls,
                    opts.map_mode,
                    ncols,
                    opts.max_errors,
                ).out);
            }
        }
    }
    proof {
        *g_evs = Ghost(evs);
        *g_rls = Ghost(rls);
    }
    Ok(())
}

#[verifier::loop_isolation(false)]
#[verifier::rlimit(100)]
#[verifier::spinoff_prover]
pub fn run_sequential(
    s: &mut Session,
    cp: &CompiledPhases,
    begin_text: &Vec<u8>,
    rows: &Vec<Vec<Vec<u8>>>,
    headers: &Vec<Vec<u8>>,
    new_columns: &Option<Vec<u8>>,
    opts: &Opts,
) -> (r: RunOutput)
    requires
        rows@.len() < 0x7fff_ffff_ffff_ffffu64,
        (match new_columns {
            Some(n) => spec_split_commas(n@).len() <= 255,
            None => true,
        }),
    ensures
        seq_run_post(
            old(s).history@,
            final(s).history@,
            *cp,
            begin_text@,
            views3(rows@),
            views(headers@),
            match new_columns {
                Some(n) => Some(n@),
                None => None,
            },
            *opts,
            r,
        ),
{
    let ghost h0 = old(s).history@;
    let ghost rows_v = views3(rows@);
    let ghost nc_v: Option<Seq<u8>> = match new_columns {
        Some(n) => Some(n@),
        None => None,
    };
    let ghost gnames: Seq<Seq<u8>> = if opts.no_headers {
        Seq::empty()
    } else {
        views(headers@)
    };
    let ghost hv = views(headers@);
    let ghost mut evs: Seq<Event> = Seq::empty();
    proof {
        assert(s.history@ =~= h0 + evs);
        assert(h0.subrange(0, h0.len() as int) =~= h0);
    }
    // control variables: cols, the row ordinal at 0, the row total at 0
    let n_cols_name = cols_name_vec();
    let braces = braces_vec();
    match set_global_str(s, &n_cols_name, &braces) {
        Ok(_) => {
            proof {
                let pe = Event::PutStr { name: name_cols(), value: txt_braces() };
                let pv = evs;
                lemma_hist_push(h0, evs, s.history@, pe);
                evs = evs.push(pe);
                lemma_track_push(evs, pv, pe);
                lemma_track_row(evs, pv, pe, rows_v, gnames);
            }
        },
        Err(e) => {
            proof {
                lemma_skip_prefix(h0, evs, s.history@);
                lemma_seq_fold_empty(
                    rows_v,
                    opts.map_mode,
                    spec_run_ncols(*opts, nc_v) as u8,
                    opts.max_errors,
                );
                assert(views3(Seq::<Vec<Vec<u8>>>::empty()) =~= Seq::<Seq<Seq<u8>>>::empty());
            }
            return RunOutput {
                records: Vec::new(),
                diagnostic: None,
                error_count: 0,
                fatal: Some(Fatal::SessionFailed { err: e }),
            };
        },
    }
    let n_idx = idx_name_vec();
    match set_global_int(s, &n_idx, 0) {
        Ok(_) => {
            proof {
                let pe = Event::PutInt { name: name_idx(), value: 0 };
                let pv = evs;
                lemma_hist_push(h0, evs, s.history@, pe);
                evs = evs.push(pe);
                lemma_track_push(evs, pv, pe);
                lemma_track_row(evs, pv, pe, rows_v, gnames);
            }
        },
        Err(e) => {
            proof {
                lemma_skip_prefix(h0, evs, s.history@);
                lemma_seq_fold_empty(
                    rows_v,
                    opts.map_mode,
                    spec_run_ncols(*opts, nc_v) as u8,
                    opts.max_errors,
                );
                assert(views3(Seq::<Vec<Vec<u8>>>::empty()) =~= Seq::<Seq<Seq<u8>>>::empty());
            }
            return RunOutput {
                records: Vec::new(),
                diagnostic: None,
                error_count: 0,
                fatal: Some(Fatal::SessionFailed { err: e }),
            };
        },
    }
    let n_rowcount = rowcount_name_vec();
    match set_global_int(s, &n_rowcount, 0) {
        Ok(_) => {
            proof {
                let pe = Event::PutInt { name: name_rowcount(), value: 0 };
                let pv = evs;
                lemma_hist_push(h0, evs, s.history@, pe);
                evs = evs.push(pe);
                lemma_track_push(evs, pv, pe);
                lemma_track_row(evs, pv, pe, rows_v, gnames);
                assert(name_rowcount().len() == 9 && name_idx().len() == 4);
            }
        },
        Err(e) => {
            proof {
                lemma_skip_prefix(h0, evs, s.history@);
                lemma_seq_fold_empty(
                    rows_v,
                    opts.map_mode,
                    spec_run_ncols(*opts, nc_v) as u8,
                    opts.max_errors,
                );
                assert(views3(Seq::<Vec<Vec<u8>>>::empty()) =~= Seq::<Seq<Seq<u8>>>::empty());
            }
            return RunOutput {
                records: Vec::new(),
                diagnostic: None,
                error_count: 0,
                fatal: Some(Fatal::SessionFailed { err: e }),
            };
        },
    }
    proof {
        assert(replies_of(evs).len() == 0);
        assert(idx_scan(evs).ok && idx_scan(evs).mains == 0 && idx_scan(evs).cur == Some(0i64));
        assert(begin_outcome_of(evs) is None);
        assert(end_outcome_of(evs) is None);
        assert(evs =~= seq_prelude_events());
    }
    // BEGIN
    match &cp.begin {
        None => {},
        Some(Err(ce)) => {
            proof {
                lemma_skip_prefix(h0, evs, s.history@);
            }
            return RunOutput {
                records: Vec::new(),
                diagnostic: None,
                error_count: 0,
                fatal: Some(
                    Fatal::BeginFailed { script: begin_text.clone(), err: ce.clone() },
                ),
            };
        },
        Some(Ok(bc)) => {
            match run_begin_chunk(s, bc) {
                Ok(_) => {
                    proof {
                        let pe = Event::RanBegin { outcome: Ok(()) };
                        let pv = evs;
                        lemma_hist_push(h0, evs, s.history@, pe);
                        evs = evs.push(pe);
                        lemma_track_push(evs, pv, pe);
                        lemma_track_row(evs, pv, pe, rows_v, gnames);
                    }
                },
                Err(e) => {
                    proof {
                        let pe = Event::RanBegin { outcome: Err(e@) };
                        let pv = evs;
                        lemma_hist_push(h0, evs, s.history@, pe);
                        evs = evs.push(pe);
                        lemma_track_push(evs, pv, pe);
                        lemma_track_row(evs, pv, pe, rows_v, gnames);
                        lemma_skip_prefix(h0, evs, s.history@);
                        assert(replies_of(evs).len() == 0);
                        assert(idx_scan(evs).ok);
                        assert(evs =~= seq_prelude_events() + begin_events(
                            begin_outcome_of(evs),
                        ));
                    }
                    return RunOutput {
                        records: Vec::new(),
                        diagnostic: None,
                        error_count: 0,
                        fatal: Some(
                            Fatal::BeginFailed { script: begin_text.clone(), err: e },
                        ),
                    };
                },
            }
        },
    }
    let ghost gb = begin_outcome_of(evs);
    let ghost pre0 = evs;
    proof {
        assert(cp.begin is None <==> gb is None);
        assert(!(gb matches Some(bo) && bo is Err));
        assert(pre0 =~= seq_prelude_events() + begin_events(gb));
    }
    // the output header row, and the declared new-column count
    let mut records: Vec<Vec<Vec<u8>>> = Vec::new();
    let mut ncols: u8 = 0;
    if !opts.no_headers {
        if opts.map_mode {
            match new_columns {
                None => {
                    proof {
                        lemma_skip_prefix(h0, evs, s.history@);
                    }
                    return RunOutput {
                        records: Vec::new(),
                        diagnostic: None,
                        error_count: 0,
                        fatal: Some(Fatal::MissingNewColumns),
                    };
                },
                Some(ncv) => {
                    let (oh, c) = build_output_headers(headers, ncv);
                    records.push(oh);
                    ncols = c;
                },
            }
        } else {
            records.push(clone_record(headers));
        }
    }
    let ghost hdrpfx = views3(records@);
    proof {
        assert(hdrpfx =~= spec_header_prefix(views(headers@), nc_v, *opts));
        assert(ncols as nat == spec_run_ncols(*opts, nc_v));
        assert(spec_run_ncols(*opts, nc_v) as u8 == ncols);
    }
    // the main loop: one MAIN evaluation per row, in read order
    let empty_names: Vec<Vec<u8>> = Vec::new();
    let mut errs: u64 = 0;
    let mut halted = false;
    let mut fatal_desc: Option<Vec<u8>> = None;
    let mut i: usize = 0;
    let ghost mut rls: Seq<Result<SRes, Seq<u8>>> = Seq::empty();
    proof {
        let m0 = seq_fold(rows_v, rls, opts.map_mode, ncols, opts.max_errors);
        assert(views3(records@) =~= hdrpfx + m0.out);
        assert(evs =~= pre0 + rows_events_upto(rows_v, hv, gnames, *opts, rls, 0));
    }
    while i < rows.len() && !halted && fatal_desc.is_none()
        invariant
            i <= rows@.len(),
            s.history@ == h0 + evs,
            replies_of(evs) == rls,
            rls.len() == i,
            evs == pre0 + rows_events_upto(rows_v, hv, gnames, *opts, rls, i as int),
            begin_outcome_of(evs) == gb,
            end_outcome_of(evs) is None,
            idx_scan(evs).ok,
            idx_scan(evs).mains == i as nat,
            idx_scan(evs).cur == Some(i as i64),
            row_scan(evs, rows_v, gnames).ok,
            row_scan(evs, rows_v, gnames).mains == i as nat,
            errs <= i,
            ({
                let m = seq_fold(rows_v, rls, opts.map_mode, ncols, opts.max_errors);
                &&& m.iterated == i as nat
                &&& m.halted == halted
                &&& m.errs == errs as nat
                &&& views3(records@) == hdrpfx + m.out
                &&& (match fatal_desc {
                    Some(d) => m.fatal == Some(d@),
                    None => m.fatal is None,
                })
            }),
            !halted || i > 0,
        decreases rows.len() - i,
    {
        let mut g_evs_v: Ghost<Seq<Event>> = Ghost(evs);
        let mut g_rls_v: Ghost<Seq<Result<SRes, Seq<u8>>>> = Ghost(rls);
        let step = seq_one_row(
            s,
            cp,
            rows,
            headers,
            &empty_names,
            opts,
            ncols,
            i,
            &mut records,
            &mut errs,
            &mut halted,
            &mut fatal_desc,
            Ghost(h0),
            Ghost(pre0),
            Ghost(hdrpfx),
            &mut g_evs_v,
            &mut g_rls_v,
        );
        proof {
            evs = g_evs_v@;
            rls = g_rls_v@;
        }
        match step {
            Ok(_) => {},
            Err(e) => {
                proof {
                    lemma_skip_prefix(h0, evs, s.history@);
                }
                return RunOutput {
                    records,
                    diagnostic: None,
                    error_count: errs,
                    fatal: Some(Fatal::SessionFailed { err: e }),
                };
            },
        }
        i += 1;
    }
    // the loop is over: a marshalling fault aborts the run here
    proof {
        assert(evs =~= pre0 + rows_events_upto(
            rows_v,
            hv,
            gnames,
            *opts,
            rls,
            rls.len() as int,
        ));
    }
    match fatal_desc {
        Some(d) => {
            proof {
                lemma_skip_prefix(h0, evs, s.history@);
                assert(evs =~= seq_prelude_events() + begin_events(begin_outcome_of(evs))
                    + rows_events_upto(rows_v, hv, gnames, *opts, rls, rls.len() as int)
                    + Seq::<Event>::empty());
            }
            return RunOutput {
                records,
                diagnostic: None,
                error_count: errs,
                fatal: Some(Fatal::BadValue { desc: d }),
            };
        },
        None => {},
    }
    // END: publish the true row total, run the phase, keep its text
    let mut diagnostic: Option<Vec<u8>> = None;
    match &cp.end {
        None => {},
        Some(endc) => {
            let itv: i64 = i as i64;
            match set_global_int(s, &n_rowcount, itv) {
                Ok(_) => {
                    proof {
                        let pe = Event::PutInt { name: name_rowcount(), value: itv };
                        let pv = evs;
                        lemma_hist_push(h0, evs, s.history@, pe);
                        evs = evs.push(pe);
                        lemma_track_push(evs, pv, pe);
                        lemma_track_row(evs, pv, pe, rows_v, gnames);
                        assert(evs =~= pre0 + rows_events_upto(
                            rows_v,
                            hv,
                            gnames,
                            *opts,
                            rls,
                            rls.len() as int,
                        ) + seq![pe]);
                        assert(i as nat == seq_fold(
                            rows_v,
                            rls,
                            opts.map_mode,
                            ncols,
                            opts.max_errors,
                        ).iterated);
                    }
                },
                Err(e) => {
                    proof {
                        lemma_skip_prefix(h0, evs, s.history@);
                    }
                    return RunOutput {
                        records,
                        diagnostic: None,
                        error_count: errs,
                        fatal: Some(Fatal::SessionFailed { err: e }),
                    };
                },
            }
            match endc {
                Err(_ce) => {
                    proof {
                        lemma_end_segment_close(
                            evs,
                            pre0 + rows_events_upto(rows_v, hv, gnames, *opts, rls, rls.len() as int),
                            cp.end,
                            i as nat,
                            itv,
                            end_outcome_of(evs),
                        );
                    }
                    diagnostic = Some(sentinel_text());
                },
                Ok(bc) => {
                    match run_end_chunk(s, bc) {
                        Err(e) => {
                            proof {
                                let pe = Event::RanEnd { outcome: Err(e@) };
                                let pv = evs;
                                lemma_hist_push(h0, evs, s.history@, pe);
                                evs = evs.push(pe);
                                lemma_track_push(evs, pv, pe);
                                lemma_track_row(evs, pv, pe, rows_v, gnames);
                                assert(evs =~= pre0 + rows_events_upto(
                                    rows_v,
                                    hv,
                                    gnames,
                                    *opts,
                                    rls,
                                    rls.len() as int,
                                ) + seq![Event::PutInt { name: name_rowcount(), value: itv }, pe]);
                                lemma_end_segment_close(
                                    evs,
                                    pre0 + rows_events_upto(rows_v, hv, gnames, *opts, rls, rls.len() as int),
                                    cp.end,
                                    i as nat,
                                    itv,
                                    end_outcome_of(evs),
                                );
                            }
                            diagnostic = Some(sentinel_text());
                        },
                        Ok(c) => {
                            proof {
                                let pe = Event::RanEnd { outcome: Ok(c@) };
                                let pv = evs;
                                lemma_hist_push(h0, evs, s.history@, pe);
                                evs = evs.push(pe);
                                lemma_track_push(evs, pv, pe);
                                lemma_track_row(evs, pv, pe, rows_v, gnames);
                                assert(evs =~= pre0 + rows_events_upto(
                                    rows_v,
                                    hv,
                                    gnames,
                                    *opts,
                                    rls,
                                    rls.len() as int,
                                ) + seq![Event::PutInt { name: name_rowcount(), value: itv }, pe]);
                                lemma_end_segment_close(
                                    evs,
                                    pre0 + rows_events_upto(rows_v, hv, gnames, *opts, rls, rls.len() as int),
                                    cp.end,
                                    i as nat,
                                    itv,
                                    end_outcome_of(evs),
                                );
                            }
                            match to_end_text(&c) {
                                Ok(t) => {
                                    diagnostic = Some(t);
                                },
                                Err(d) => {
                                    proof {
                                        lemma_skip_prefix(h0, evs, s.history@);
                                    }
                                    return RunOutput {
                                        records,
                                        diagnostic: None,
                                        error_count: errs,
                                        fatal: Some(Fatal::BadEndValue { desc: d }),
                                    };
                                },
                            }
                        },
                    }
                },
            }
        },
    }
    proof {
        lemma_skip_prefix(h0, evs, s.history@);
    }
    RunOutput { records, diagnostic, error_count: errs, fatal: None }
}

/// One exchange of the indexed scan with the evaluator: a MAIN attempt, or
/// a read-back of the position variable.
pub enum Reply {
    M(Result<SRes, Seq<u8>>),
    R(i64),
}

/// The MAIN attempts and position read-backs recorded in an event
/// sequence, oldest first.
pub open spec fn io_replies_of(evs: Seq<Event>) -> Seq<Reply>
    decreases evs.len(),
{
    if evs.len() == 0 {
        Seq::empty()
    } else {
        let rest = io_replies_of(evs.drop_last());
        match evs.last() {
            Event::RanMain { outcome } => rest.push(Reply::M(outcome)),
            Event::GotInt { name, value } => if name == txt_index_var() {
                rest.push(Reply::R(value))
            } else {
                rest
            },
            _ => rest,
        }
    }
}

/// The position a read-back selects: itself when within `[1, row_count]`,
/// else the first row.
pub open spec fn spec_sel_pos(v: i64, rc: int) -> int {
    if 1 <= v && v <= rc {
        v as int
    } else {
        0
    }
}

/// The script-driven exit condition: any negative value, or one beyond the
/// row total, ends the traversal.
pub open spec fn spec_stop_pos(v: i64, rc: int) -> bool {
    v < 0 || v > rc
}

/// Decides where the indexed scan starts after BEGIN ran: the position the
/// script left in the cursor when it lies in `[1, row_count]`, else `0`.
pub fn start_position(index_val: i64, row_count: u64) -> (p: u64)
    requires
        row_count < 0x8000_0000_0000_0000u64,
    ensures
        p as int == spec_sel_pos(index_val, row_count as int),
{
    if index_val > 0 && index_val <= (row_count as i64) {
        index_val as u64
    } else {
        0
    }
}

/// Decides the position of the next row after one was evaluated: `None`
/// ends the traversal (the designed script-driven exit), any value in
/// `[1, row_count]` is taken as it stands, and any other tolerated value
/// selects the first row.
pub fn next_position(index_val: i64, row_count: u64) -> (r: Option<u64>)
    requires
        row_count < 0x8000_0000_0000_0000u64,
    ensures
        (r is None) <==> spec_stop_pos(index_val, row_count as int),
        r matches Some(p) ==> p as int == spec_sel_pos(index_val, row_count as int),
{
    if index_val < 0 || index_val > (row_count as i64) {
        None
    } else {
        Some(start_position(index_val, row_count))
    }
}

/// The indexed prelude: the `cols` binding, the ordinal and the cursor
/// both zeroed, then the row total and the last row's position — known up
/// front here, before BEGIN may run.
pub open spec fn ind_prelude_events(n: int) -> Seq<Event> {
    seq![
        Event::PutStr { name: name_cols(), value: txt_braces() },
        Event::PutInt { name: name_idx(), value: 0 },
        Event::PutInt { name: txt_index_var(), value: 0 },
        Event::PutInt { name: name_rowcount(), value: n as i64 },
        Event::PutInt { name: name_lastrow(), value: (n - 1) as i64 },
    ]
}

/// One indexed row's event segment: the ordinal set to the row's position,
/// the row-as-table rebuild from exactly that row's fields, the per-column
/// bindings, then the MAIN attempt.  The row total is never rebound here:
/// END sees the value fixed before BEGIN.
pub open spec fn ind_row_events(
    hdr: Seq<Seq<u8>>,
    names: Seq<Seq<u8>>,
    row: Seq<Seq<u8>>,
    pos: int,
    reply: Result<SRes, Seq<u8>>,
    opts: Opts,
) -> Seq<Event> {
    seq![
        Event::PutInt { name: name_idx(), value: pos as i64 },
        Event::PutRow { fields: row, names },
    ] + glob_events(hdr, row, opts) + seq![Event::RanMain { outcome: reply }]
}

/// The indexed scan's state between exchanges.
pub struct IndState {
    pub out: Seq<Seq<Seq<u8>>>,
    pub errs: nat,
    pub pos: int,
    pub started: bool,
    pub await_main: bool,
    pub halted: bool,
    pub init_seek_fail: bool,
    pub fatal: Option<Seq<u8>>,
}

/// One indexed exchange.  The first read-back fixes the starting position
/// (a seek beyond the physical rows is fatal there).  Then each MAIN
/// attempt is accounted exactly as in the sequential scan, against the row
/// at the current position; and each following read-back either ends the
/// traversal (negative or beyond the total; or a seek that would fail) or
/// fixes the next position.
pub open spec fn ind_step(
    st: IndState,
    rows: Seq<Seq<Seq<u8>>>,
    reply: Reply,
    map_mode: bool,
    ncols: u8,
    max_errors: u64,
) -> IndState {
    let rc = rows.len() as int;
    if st.halted || st.init_seek_fail || st.fatal is Some {
        st
    } else if !st.started {
        match reply {
            Reply::R(v) => {
                let p = spec_sel_pos(v, rc);
                if p >= rc {
                    IndState { init_seek_fail: true, ..st }
                } else {
                    IndState { started: true, await_main: true, pos: p, ..st }
                }
            },
            Reply::M(_) => st,
        }
    } else if st.await_main {
        match reply {
            Reply::M(rep) => {
                let row = rows[st.pos];
                match rep {
                    Err(_) => {
                        let errs = st.errs + 1;
                        if max_errors > 0 && errs > max_errors {
                            IndState { errs, halted: true, ..st }
                        } else if map_mode {
                            IndState {
                                out: st.out.push(row.push(txt_sentinel())),
                                errs,
                                await_main: false,
                                ..st
                            }
                        } else {
                            IndState { out: st.out.push(row), errs, await_main: false, ..st }
                        }
                    },
                    Ok(res) => if map_mode {
                        match spec_map_fields(res, ncols) {
                            Ok(fs) => IndState {
                                out: st.out.push(row + fs),
                                await_main: false,
                                ..st
                            },
                            Err(d) => IndState { fatal: Some(d), ..st },
                        }
                    } else if spec_keep_row(res, false) {
                        IndState { out: st.out.push(row), await_main: false, ..st }
                    } else {
                        IndState { await_main: false, ..st }
                    },
                }
            },
            Reply::R(_) => st,
        }
    } else {
        match reply {
            Reply::R(v) => if spec_stop_pos(v, rc) {
                IndState { halted: true, ..st }
            } else {
                let p = spec_sel_pos(v, rc);
                if p >= rc {
                    IndState { halted: true, ..st }
                } else {
                    IndState { pos: p, await_main: true, ..st }
                }
            },
            Reply::M(_) => st,
        }
    }
}

/// The indexed scan folded over all exchanges.
pub open spec fn ind_fold(
    rows: Seq<Seq<Seq<u8>>>,
    rps: Seq<Reply>,
    map_mode: bool,
    ncols: u8,
    max_errors: u64,
) -> IndState
    decreases rps.len(),
{
    if rps.len() == 0 {
        IndState {
            out: Seq::empty(),
            errs: 0,
            pos: 0,
            started: false,
            await_main: false,
            halted: false,
            init_seek_fail: false,
            fatal: None,
        }
    } else {
        ind_step(
            ind_fold(rows, rps.drop_last(), map_mode, ncols, max_errors),
            rows,
            rps.last(),
            map_mode,
            ncols,
            max_errors,
        )
    }
}

/// The exchanges of a descending traversal over `n` rows, after `k` full
/// iterations: the cursor first read at the last row's position, then,
/// after each MAIN attempt, read one lower.
pub open spec fn desc_replies(n: int, ms: Seq<Result<SRes, Seq<u8>>>, k: int) -> Seq<Reply>
    decreases k,
{
    if k <= 0 {
        seq![Reply::R((n - 1) as i64)]
    } else {
        desc_replies(n, ms, k - 1) + seq![
            Reply::M(ms[k - 1]),
            Reply::R((n - 1 - k) as i64),
        ]
    }
}

proof fn lemma_descending_prefix(
    rows: Seq<Seq<Seq<u8>>>,
    ncols: u8,
    max_errors: u64,
    ms: Seq<Result<SRes, Seq<u8>>>,
    fs: Seq<Seq<Seq<u8>>>,
    k: int,
)
    requires
        1 <= rows.len() < 0x8000_0000_0000_0000,
        ms.len() == rows.len(),
        fs.len() == rows.len(),
        forall|j: int|
            0 <= j < ms.len() ==> ((#[trigger] ms[j]) matches Ok(res) && spec_map_fields(
                res,
                ncols,
            ) == Ok::<Seq<Seq<u8>>, Seq<u8>>(fs[j])),
        0 <= k <= rows.len(),
    ensures
        ({
            let n = rows.len() as int;
            let m = ind_fold(rows, desc_replies(n, ms, k), true, ncols, max_errors);
            &&& m.fatal is None
            &&& !m.init_seek_fail
            &&& m.errs == 0
            &&& m.out.len() == k
            &&& (forall|j: int| 0 <= j < k ==> m.out[j] == rows[n - 1 - j] + fs[j])
            &&& (k < n ==> (m.started && m.await_main && !m.halted && m.pos == n - 1 - k))
            &&& (k == n ==> m.halted)
        }),
    decreases k,
{
    let n = rows.len() as int;
    if k == 0 {
        lemma_ind_fold_empty(rows, true, ncols, max_errors);
        lemma_ind_fold_push(rows, Seq::<Reply>::empty(), Reply::R((n - 1) as i64), true, ncols,
            max_errors);
        assert(desc_replies(n, ms, 0) =~= Seq::<Reply>::empty().push(Reply::R((n - 1) as i64)));
    } else {
        lemma_descending_prefix(rows, ncols, max_errors, ms, fs, k - 1);
        let prev = desc_replies(n, ms, k - 1);
        let rm = Reply::M(ms[k - 1]);
        let rr = Reply::R((n - 1 - k) as i64);
        assert(desc_replies(n, ms, k) =~= prev.push(rm).push(rr));
        lemma_ind_fold_push(rows, prev, rm, true, ncols, max_errors);
        lemma_ind_fold_push(rows, prev.push(rm), rr, true, ncols, max_errors);
        let m1 = ind_fold(rows, prev.push(rm), true, ncols, max_errors);
        assert(ms[k - 1] matches Ok(res) && spec_map_fields(res, ncols) == Ok::<
            Seq<Seq<u8>>,
            Seq<u8>,
        >(fs[k - 1]));
        assert(m1.out =~= ind_fold(rows, prev, true, ncols, max_errors).out.push(
            rows[n - 1 - (k - 1)] + fs[k - 1],
        ));
    }
}

/// The descending-traversal law: over any dataset of `n` rows, a run whose
/// cursor is first read at the last row's position and, after every row,
/// one lower, drives exactly `n` MAIN attempts, visits the rows in strict
/// descending position order — the `k`-th output row extends the row at
/// position `n - 1 - k` — and terminates at the read of `-1`.  Stated for
/// map mode with every attempt succeeding and marshalling cleanly, so that
/// neither the error budget nor a marshalling fault cuts the traversal
/// short.
pub proof fn lemma_descending_traversal(
    rows: Seq<Seq<Seq<u8>>>,
    ncols: u8,
    max_errors: u64,
    ms: Seq<Result<SRes, Seq<u8>>>,
    fs: Seq<Seq<Seq<u8>>>,
)
    requires
        1 <= rows.len() < 0x8000_0000_0000_0000,
        ms.len() == rows.len(),
        fs.len() == rows.len(),
        forall|j: int|
            0 <= j < ms.len() ==> ((#[trigger] ms[j]) matches Ok(res) && spec_map_fields(
                res,
                ncols,
            ) == Ok::<Seq<Seq<u8>>, Seq<u8>>(fs[j])),
    ensures
        ({
            let n = rows.len() as int;
            let m = ind_fold(rows, desc_replies(n, ms, n), true, ncols, max_errors);
            &&& m.halted
            &&& m.fatal is None
            &&& !m.init_seek_fail
            &&& m.errs == 0
            &&& m.out.len() == rows.len()
            &&& (forall|j: int| 0 <= j < rows.len() ==> m.out[j] == rows[n - 1 - j] + fs[j])
        }),
{
    lemma_descending_prefix(rows, ncols, max_errors, ms, fs, rows.len() as int);
}

/// One indexed scan in progress: its output so far, its failure count,
/// the position of the row to evaluate next, and whether (and how) it
/// ended.  The ghost fields anchor the run to the session history.
pub struct IndexedRun {
    pub records: Vec<Vec<Vec<u8>>>,
    pub errs: u64,
    pub pos: u64,
    pub done: bool,
    pub fatal: Option<Fatal>,
    pub ncols: u8,
    pub base: Ghost<nat>,
    pub hdrpfx: Ghost<Seq<Seq<Seq<u8>>>>,
}

/// Well-formedness of an indexed scan against the session: the run's
/// output, failure count, position and ending all agree with the fold of
/// the exchanges recorded since the run began.
pub open spec fn ind_wf(run: IndexedRun, s: Session, rows: Seq<Seq<Seq<u8>>>, opts: Opts) -> bool {
    let evs = s.history@.skip(run.base@ as int);
    let m = ind_fold(rows, io_replies_of(evs), opts.map_mode, run.ncols, opts.max_errors);
    &&& run.base@ <= s.history@.len()
    &&& rows.len() > 0
    &&& views3(run.records@) == run.hdrpfx@ + m.out
    &&& run.errs as nat == m.errs
    &&& (!run.done ==> {
        &&& run.fatal is None
        &&& m.started && m.await_main && !m.halted && !m.init_seek_fail && m.fatal is None
        &&& m.pos == run.pos as int
        &&& 0 <= m.pos < rows.len()
    })
    &&& (run.done ==> (match run.fatal {
        Some(f) => (f@ matches FatalV::BadValue { desc } ==> m.fatal == Some(desc)),
        None => m.halted,
    }))
}

proof fn lemma_skip_push(h: Seq<Event>, n: int, e: Event)
    requires
        0 <= n <= h.len(),
    ensures
        h.push(e).skip(n) == h.skip(n).push(e),
{
    assert(h.push(e).skip(n) =~= h.skip(n).push(e));
}

proof fn lemma_track_io(evs_new: Seq<Event>, prev: Seq<Event>, e: Event)
    requires
        evs_new == prev.push(e),
    ensures
        io_replies_of(evs_new) == (match e {
            Event::RanMain { outcome } => io_replies_of(prev).push(Reply::M(outcome)),
            Event::GotInt { name, value } => if name == txt_index_var() {
                io_replies_of(prev).push(Reply::R(value))
            } else {
                io_replies_of(prev)
            },
            _ => io_replies_of(prev),
        }),
{
    assert(evs_new.drop_last() =~= prev);
    assert(evs_new.last() == e);
}

proof fn lemma_ind_fold_empty(rows: Seq<Seq<Seq<u8>>>, mm: bool, nc: u8, mx: u64)
    ensures
        ind_fold(rows, Seq::<Reply>::empty(), mm, nc, mx) == (IndState {
            out: Seq::<Seq<Seq<u8>>>::empty(),
            errs: 0,
            pos: 0,
            started: false,
            await_main: false,
            halted: false,
            init_seek_fail: false,
            fatal: None,
        }),
{
}

proof fn lemma_ind_fold_push(rows: Seq<Seq<Seq<u8>>>, rps: Seq<Reply>, rp: Reply, mm: bool, nc: u8, mx: u64)
    ensures
        ind_fold(rows, rps.push(rp), mm, nc, mx) == ind_step(
            ind_fold(rows, rps, mm, nc, mx),
            rows,
            rp,
            mm,
            nc,
            mx,
        ),
{
    assert(rps.push(rp).drop_last() =~= rps);
    assert(rps.push(rp).last() == rp);
}

/// Opens one indexed scan: binds the control variables (the row total and
/// the last row's position are known up front here, before BEGIN runs,
/// unlike in the sequential scan), writes the header record, runs BEGIN,
/// and fixes the starting position from the cursor the script left behind.
/// A fresh run is returned; `done` with a fatal error set means the scan
/// never starts.
#[verifier::loop_isolation(false)]
#[verifier::rlimit(60)]
pub fn indexed_begin(
    s: &mut Session,
    cp: &CompiledPhases,
    begin_text: &Vec<u8>,
    rows: &Vec<Vec<Vec<u8>>>,
    headers: &Vec<Vec<u8>>,
    new_columns: &Option<Vec<u8>>,
    opts: &Opts,
) -> (run: IndexedRun)
    requires
        1 <= rows@.len() < 0x7fff_ffff_ffff_ffffu64,
        (match new_columns {
            Some(n) => spec_split_commas(n@).len() <= 255,
            None => true,
        }),
    ensures
        ind_wf(run, *final(s), views3(rows@), *opts),
        final(s).history@.len() >= old(s).history@.len(),
        final(s).history@.subrange(0, old(s).history@.len() as int) == old(s).history@,
        run.errs == 0,
        run.done ==> run.fatal is Some,
        (run.fatal matches Some(f) ==> (f@ is BeginFailed || f@ is MissingNewColumns || f@
            is SeekFailed || f@ is SessionFailed)),
        views3(run.records@) == run.hdrpfx@,
        (!(run.fatal matches Some(f) && (f@ is SessionFailed || f@ is MissingNewColumns)) ==> {
            &&& run.hdrpfx@ == spec_header_prefix(
                views(headers@),
                match new_columns {
                    Some(n) => Some(n@),
                    None => None,
                },
                *opts,
            )
            &&& run.ncols as nat == spec_run_ncols(
                *opts,
                match new_columns {
                    Some(n) => Some(n@),
                    None => None,
                },
            )
        }),
        // each fatal is tied to its cause
        (run.fatal matches Some(f) ==> match f@ {
            FatalV::MissingNewColumns => opts.map_mode && !opts.no_headers && (match new_columns {
                Some(_) => false,
                None => true,
            }),
            FatalV::BeginFailed { script, err } => script == begin_text@ && ((
            cp.begin matches Some(Err(ce)) && err == ce@) || begin_outcome_of(
                final(s).history@.skip(old(s).history@.len() as int),
            ) == Some(Err::<(), Seq<u8>>(err))),
            FatalV::SeekFailed { .. } => ind_fold(
                views3(rows@),
                io_replies_of(final(s).history@.skip(run.base@ as int)),
                opts.map_mode,
                run.ncols,
                opts.max_errors,
            ).init_seek_fail,
            FatalV::SessionFailed { .. } => true,
            _ => false,
        }),
        // the exact protocol driven, except under an evaluator refusal:
        // the cols binding, the header gate, the control variables (the
        // row total and the last row's position known up front), BEGIN,
        // then the one cursor read that fixes the starting position
        ((run.fatal matches Some(f) && f@ is SessionFailed) || {
            let delta = final(s).history@.skip(old(s).history@.len() as int);
            if run.fatal matches Some(f) && f@ is MissingNewColumns {
                delta == seq![Event::PutStr { name: name_cols(), value: txt_braces() }]
            } else if cp.begin matches Some(cb) && cb is Err {
                delta == ind_prelude_events(rows@.len() as int)
            } else if begin_outcome_of(delta) matches Some(bo) && bo is Err {
                delta == ind_prelude_events(rows@.len() as int) + begin_events(
                    begin_outcome_of(delta),
                )
            } else {
                &&& delta.len() > 0
                &&& (delta.last() matches Event::GotInt { name, value } && name
                    == txt_index_var())
                &&& delta == ind_prelude_events(rows@.len() as int) + begin_events(
                    begin_outcome_of(delta),
                ) + seq![delta.last()]
            }
        }),
{
    let ghost h0 = old(s).history@;
    let ghost nc_v: Option<Seq<u8>> = match new_columns {
        Some(n) => Some(n@),
        None => None,
    };
    let ghost mut evs: Seq<Event> = Seq::empty();
    proof {
        assert(s.history@ =~= h0 + evs);
    }
    let rc: u64 = rows.len() as u64;
    // `cols`, then the header record, then the control variables
    let n_cols_name = cols_name_vec();
    let braces = braces_vec();
    let mut records: Vec<Vec<Vec<u8>>> = Vec::new();
    let mut ncols: u8 = 0;
    match set_global_str(s, &n_cols_name, &braces) {
        Ok(_) => {
            proof {
                let pe = Event::PutStr { name: name_cols(), value: txt_braces() };
                let pv = evs;
                lemma_hist_push(h0, evs, s.history@, pe);
                evs = evs.push(pe);
                lemma_track_push(evs, pv, pe);
            }
        },
        Err(e) => {
            proof {
                lemma_skip_prefix(h0, evs, s.history@);
                assert(s.history@.skip(s.history@.len() as int) =~= Seq::<Event>::empty());
                assert(io_replies_of(Seq::<Event>::empty()) =~= Seq::<Reply>::empty());
                lemma_ind_fold_empty(views3(rows@), opts.map_mode, 0, opts.max_errors);
                assert(views3(records@) =~= Seq::<Seq<Seq<u8>>>::empty()
                    + Seq::<Seq<Seq<u8>>>::empty());
                assert(views3(records@) =~= Seq::<Seq<Seq<u8>>>::empty());
            }
            return IndexedRun {
                records,
                errs: 0,
                pos: 0,
                done: true,
                fatal: Some(Fatal::SessionFailed { err: e }),
                ncols: 0,
                base: Ghost(s.history@.len() as nat),
                hdrpfx: Ghost(Seq::empty()),
            };
        },
    }
    if !opts.no_headers {
        if opts.map_mode {
            match new_columns {
                None => {
                    proof {
                        lemma_skip_prefix(h0, evs, s.history@);
                        assert(s.history@.skip(s.history@.len() as int)
                            =~= Seq::<Event>::empty());
                        assert(io_replies_of(Seq::<Event>::empty()) =~= Seq::<Reply>::empty());
                        lemma_ind_fold_empty(views3(rows@), opts.map_mode, 0, opts.max_errors);
                        assert(views3(records@) =~= Seq::<Seq<Seq<u8>>>::empty()
                            + Seq::<Seq<Seq<u8>>>::empty());
                        assert(views3(records@) =~= Seq::<Seq<Seq<u8>>>::empty());
                        assert(evs =~= seq![
                            Event::PutStr { name: name_cols(), value: txt_braces() },
                        ]);
                    }
                    return IndexedRun {
                        records,
                        errs: 0,
                        pos: 0,
                        done: true,
                        fatal: Some(Fatal::MissingNewColumns),
                        ncols: 0,
                        base: Ghost(s.history@.len() as nat),
                        hdrpfx: Ghost(Seq::empty()),
                    };
                },
                Some(ncv) => {
                    let (oh, c) = build_output_headers(headers, ncv);
                    records.push(oh);
                    ncols = c;
                },
            }
        } else {
            records.push(clone_record(headers));
        }
    }
    let ghost hdrpfx = views3(records@);
    proof {
        assert(hdrpfx =~= spec_header_prefix(views(headers@), nc_v, *opts));
        assert(ncols as nat == spec_run_ncols(*opts, nc_v));
        assert(hdrpfx + Seq::<Seq<Seq<u8>>>::empty() =~= hdrpfx);
    }
    // the row total and the last row's position are known up front
    let n_idx = idx_name_vec();
    let n_index = index_var_vec();
    let n_rowcount = rowcount_name_vec();
    let n_lastrow = lastrow_name_vec();
    let r1 = set_global_int(s, &n_idx, 0);
    match r1 {
        Ok(_) => {
            proof {
                let pe = Event::PutInt { name: name_idx(), value: 0 };
                let pv = evs;
                lemma_hist_push(h0, evs, s.history@, pe);
                evs = evs.push(pe);
                lemma_track_push(evs, pv, pe);
            }
        },
        Err(e) => {
            proof {
                lemma_skip_prefix(h0, evs, s.history@);
                assert(s.history@.skip(s.history@.len() as int) =~= Seq::<Event>::empty());
                assert(io_replies_of(Seq::<Event>::empty()) =~= Seq::<Reply>::empty());
                lemma_ind_fold_empty(views3(rows@), opts.map_mode, ncols, opts.max_errors);
                assert(views3(records@) =~= hdrpfx + Seq::<Seq<Seq<u8>>>::empty());
            }
            return IndexedRun {
                records,
                errs: 0,
                pos: 0,
                done: true,
                fatal: Some(Fatal::SessionFailed { err: e }),
                ncols,
                base: Ghost(s.history@.len() as nat),
                hdrpfx: Ghost(hdrpfx),
            };
        },
    }
    let r2 = set_global_int(s, &n_index, 0);
    match r2 {
        Ok(_) => {
            proof {
                let pe = Event::PutInt { name: txt_index_var(), value: 0 };
                let pv = evs;
                lemma_hist_push(h0, evs, s.history@, pe);
                evs = evs.push(pe);
                lemma_track_push(evs, pv, pe);
            }
        },
        Err(e) => {
            proof {
                lemma_skip_prefix(h0, evs, s.history@);
                assert(s.history@.skip(s.history@.len() as int) =~= Seq::<Event>::empty());
                assert(io_replies_of(Seq::<Event>::empty()) =~= Seq::<Reply>::empty());
                lemma_ind_fold_empty(views3(rows@), opts.map_mode, ncols, opts.max_errors);
                assert(views3(records@) =~= hdrpfx + Seq::<Seq<Seq<u8>>>::empty());
            }
            return IndexedRun {
                records,
                errs: 0,
                pos: 0,
                done: true,
                fatal: Some(Fatal::SessionFailed { err: e }),
                ncols,
                base: Ghost(s.history@.len() as nat),
                hdrpfx: Ghost(hdrpfx),
            };
        },
    }
    let rcv: i64 = rc as i64;
    let r3 = set_global_int(s, &n_rowcount, rcv);
    match r3 {
        Ok(_) => {
            proof {
                let pe = Event::PutInt { name: name_rowcount(), value: rcv };
                let pv = evs;
                lemma_hist_push(h0, evs, s.history@, pe);
                evs = evs.push(pe);
                lemma_track_push(evs, pv, pe);
            }
        },
        Err(e) => {
            proof {
                lemma_skip_prefix(h0, evs, s.history@);
                assert(s.history@.skip(s.history@.len() as int) =~= Seq::<Event>::empty());
                assert(io_replies_of(Seq::<Event>::empty()) =~= Seq::<Reply>::empty());
                lemma_ind_fold_empty(views3(rows@), opts.map_mode, ncols, opts.max_errors);
                assert(views3(records@) =~= hdrpfx + Seq::<Seq<Seq<u8>>>::empty());
            }
            return IndexedRun {
                records,
                errs: 0,
                pos: 0,
                done: true,
                fatal: Some(Fatal::SessionFailed { err: e }),
                ncols,
                base: Ghost(s.history@.len() as nat),
                hdrpfx: Ghost(hdrpfx),
            };
        },
    }
    let lrv: i64 = rcv - 1;
    let r4 = set_global_int(s, &n_lastrow, lrv);
    match r4 {
        Ok(_) => {
            proof {
                let pe = Event::PutInt { name: name_lastrow(), value: lrv };
                let pv = evs;
                lemma_hist_push(h0, evs, s.history@, pe);
                evs = evs.push(pe);
                lemma_track_push(evs, pv, pe);
                assert(rcv == rows@.len() as i64);
                assert(lrv == (rows@.len() - 1) as i64);
                assert(evs =~= ind_prelude_events(rows@.len() as int));
            }
        },
        Err(e) => {
            proof {
                lemma_skip_prefix(h0, evs, s.history@);
                assert(s.history@.skip(s.history@.len() as int) =~= Seq::<Event>::empty());
                assert(io_replies_of(Seq::<Event>::empty()) =~= Seq::<Reply>::empty());
                lemma_ind_fold_empty(views3(rows@), opts.map_mode, ncols, opts.max_errors);
                assert(views3(records@) =~= hdrpfx + Seq::<Seq<Seq<u8>>>::empty());
            }
            return IndexedRun {
                records,
                errs: 0,
                pos: 0,
                done: true,
                fatal: Some(Fatal::SessionFailed { err: e }),
                ncols,
                base: Ghost(s.history@.len() as nat),
                hdrpfx: Ghost(hdrpfx),
            };
        },
    }
    // BEGIN
    match &cp.begin {
        None => {},
        Some(Err(ce)) => {
            proof {
                lemma_skip_prefix(h0, evs, s.history@);
                assert(s.history@.skip(s.history@.len() as int) =~= Seq::<Event>::empty());
                assert(io_replies_of(Seq::<Event>::empty()) =~= Seq::<Reply>::empty());
                lemma_ind_fold_empty(views3(rows@), opts.map_mode, ncols, opts.max_errors);
                assert(views3(records@) =~= hdrpfx + Seq::<Seq<Seq<u8>>>::empty());
            }
            return IndexedRun {
                records,
                errs: 0,
                pos: 0,
                done: true,
                fatal: Some(Fatal::BeginFailed { script: begin_text.clone(), err: ce.clone() }),
                ncols,
                base: Ghost(s.history@.len() as nat),
                hdrpfx: Ghost(hdrpfx),
            };
        },
        Some(Ok(bc)) => {
            match run_begin_chunk(s, bc) {
                Ok(_) => {
                    proof {
                        let pe = Event::RanBegin { outcome: Ok(()) };
                        let pv = evs;
                        lemma_hist_push(h0, evs, s.history@, pe);
                        evs = evs.push(pe);
                        lemma_track_push(evs, pv, pe);
                        assert(evs =~= ind_prelude_events(rows@.len() as int) + begin_events(
                            begin_outcome_of(evs),
                        ));
                    }
                },
                Err(e) => {
                    proof {
                        let pe = Event::RanBegin { outcome: Err(e@) };
                        let pv = evs;
                        lemma_hist_push(h0, evs, s.history@, pe);
                        evs = evs.push(pe);
                        lemma_track_push(evs, pv, pe);
                        lemma_skip_prefix(h0, evs, s.history@);
                        assert(s.history@.skip(s.history@.len() as int)
                            =~= Seq::<Event>::empty());
                        assert(io_replies_of(Seq::<Event>::empty()) =~= Seq::<Reply>::empty());
                        lemma_ind_fold_empty(views3(rows@), opts.map_mode, ncols, opts.max_errors);
                        assert(views3(records@) =~= hdrpfx + Seq::<Seq<Seq<u8>>>::empty());
                        assert(evs =~= ind_prelude_events(rows@.len() as int) + begin_events(
                            begin_outcome_of(evs),
                        ));
                    }
                    return IndexedRun {
                        records,
                        errs: 0,
                        pos: 0,
                        done: true,
                        fatal: Some(Fatal::BeginFailed { script: begin_text.clone(), err: e }),
                        ncols,
                        base: Ghost(s.history@.len() as nat),
                        hdrpfx: Ghost(hdrpfx),
                    };
                },
            }
        },
    }
    // read back the cursor the script left, and seek to the start
    let ghost baseg = s.history@.len() as nat;
    let ghost hbase = s.history@;
    let ghost gb_ix = begin_outcome_of(evs);
    let v = read_global_int(s, &n_index);
    proof {
        let pe = Event::GotInt { name: txt_index_var(), value: v };
        lemma_skip_push(hbase, baseg as int, pe);
        assert(hbase.skip(baseg as int) =~= Seq::<Event>::empty());
        lemma_track_io(
            s.history@.skip(baseg as int),
            Seq::<Event>::empty(),
            pe,
        );
        assert(io_replies_of(Seq::<Event>::empty()) =~= Seq::<Reply>::empty());
        // the whole delta still extends the history the run started from
        let pv = evs;
        lemma_hist_push(h0, evs, s.history@, pe);
        evs = evs.push(pe);
        lemma_track_push(evs, pv, pe);
        lemma_skip_prefix(h0, evs, s.history@);
        assert(evs.last() == pe);
        assert(evs =~= ind_prelude_events(rows@.len() as int) + begin_events(gb_ix) + seq![pe]);
        assert(begin_outcome_of(evs) == gb_ix);
    }
    let start = start_position(v, rc);
    proof {
        let ios = io_replies_of(s.history@.skip(baseg as int));
        assert(ios =~= Seq::<Reply>::empty().push(Reply::R(v)));
        lemma_ind_fold_empty(views3(rows@), opts.map_mode, ncols, opts.max_errors);
        lemma_ind_fold_push(
            views3(rows@),
            Seq::<Reply>::empty(),
            Reply::R(v),
            opts.map_mode,
            ncols,
            opts.max_errors,
        );
    }
    if start >= rc {
        proof {
            assert(views3(records@) =~= hdrpfx + Seq::<Seq<Seq<u8>>>::empty());
        }
        return IndexedRun {
            records,
            errs: 0,
            pos: 0,
            done: true,
            fatal: Some(Fatal::SeekFailed { position: start }),
            ncols,
            base: Ghost(baseg),
            hdrpfx: Ghost(hdrpfx),
        };
    }
    proof {
        assert(views3(records@) =~= hdrpfx + Seq::<Seq<Seq<u8>>>::empty());
    }
    IndexedRun {
        records,
        errs: 0,
        pos: start,
        done: false,
        fatal: None,
        ncols,
        base: Ghost(baseg),
        hdrpfx: Ghost(hdrpfx),
    }
}

/// Evaluates MAIN for the row at the current position, marshals the result
/// exactly as the sequential scan does, then reads the cursor back to
/// decide the next position — or that the traversal ends: a negative
/// cursor or one beyond the row total is the designed exit, and a position
/// the reader could not seek ends it likewise.  One call visits one row;
/// the caller loops until `done`, which only the script (or a fault)
/// decides — the traversal is unbounded by design.
#[verifier::loop_isolation(false)]
#[verifier::rlimit(100)]
#[verifier::spinoff_prover]
pub fn indexed_step(
    s: &mut Session,
    run: &mut IndexedRun,
    cp: &CompiledPhases,
    rows: &Vec<Vec<Vec<u8>>>,
    headers: &Vec<Vec<u8>>,
    opts: &Opts,
) -> (done: bool)
    requires
        ind_wf(*old(run), *old(s), views3(rows@), *opts),
        !old(run).done,
        old(run).errs < u64::MAX,
        rows@.len() < 0x7fff_ffff_ffff_ffffu64,
    ensures
        ind_wf(*final(run), *final(s), views3(rows@), *opts),
        done == final(run).done,
        final(run).base@ == old(run).base@,
        final(run).hdrpfx@ == old(run).hdrpfx@,
        final(run).ncols == old(run).ncols,
        final(run).errs >= old(run).errs,
        final(s).history@.len() >= old(s).history@.len(),
        final(s).history@.subrange(0, old(s).history@.len() as int) == old(s).history@,
        (final(run).fatal matches Some(f) ==> (f@ is BadValue || f@ is SessionFailed)),
        ({
            let old_ios = io_replies_of(old(s).history@.skip(old(run).base@ as int));
            let new_ios = io_replies_of(final(s).history@.skip(old(run).base@ as int));
            (final(run).fatal matches Some(f) && f@ is SessionFailed) || (new_ios.len()
                > old_ios.len() && new_ios.subrange(0, old_ios.len() as int) == old_ios)
        }),
        // the step's own events are exactly one row's segment — ordinal at
        // the row's position, row rebuild, per-column bindings, one MAIN
        // attempt — followed by at most one cursor read; in particular the
        // row total is never rebound after BEGIN
        ((final(run).fatal matches Some(f) && f@ is SessionFailed) || {
            let delta = final(s).history@.skip(old(s).history@.len() as int);
            let seg = ind_row_events(
                views(headers@),
                if opts.no_headers {
                    Seq::<Seq<u8>>::empty()
                } else {
                    views(headers@)
                },
                views3(rows@)[old(run).pos as int],
                old(run).pos as int,
                replies_of(delta)[0],
                *opts,
            );
            &&& replies_of(delta).len() == 1
            &&& (delta == seg || (delta.len() > 0 && (delta.last()
                matches Event::GotInt { name, value } && name == txt_index_var()) && delta == seg
                + seq![delta.last()]))
        }),
{
    let ghost h0 = old(s).history@;
    let ghost b = run.base@ as int;
    let ghost run0 = *run;
    let ghost rows_v = views3(rows@);
    let ghost hv = views(headers@);
    let ghost gnames: Seq<Seq<u8>> = if opts.no_headers {
        Seq::<Seq<u8>>::empty()
    } else {
        views(headers@)
    };
    let ghost mut dl: Seq<Event> = Seq::empty();
    let ghost ios0 = io_replies_of(old(s).history@.skip(b));
    let ghost m0 = ind_fold(rows_v, ios0, opts.map_mode, run.ncols, opts.max_errors);
    let rc: u64 = rows.len() as u64;
    let pos_us: usize = run.pos as usize;
    let row = &rows[pos_us];
    proof {
        assert(rows_v[pos_us as int] == views(rows@[pos_us as int]@));
        assert(h0.subrange(0, h0.len() as int) =~= h0);
    }
    let ncols = run.ncols;
    // publish the position as the row ordinal
    let n_idx = idx_name_vec();
    let pv_idx: i64 = run.pos as i64;
    match set_global_int(s, &n_idx, pv_idx) {
        Ok(_) => {
            proof {
                let pe = Event::PutInt { name: name_idx(), value: pv_idx };
                lemma_skip_push(h0, b, pe);
                lemma_track_io(s.history@.skip(b), h0.skip(b), pe);
                assert(h0.skip(b) =~= old(s).history@.skip(b));
                assert(s.history@.subrange(0, h0.len() as int) =~= h0);
                let pv = dl;
                lemma_hist_push(h0, dl, s.history@, pe);
                dl = dl.push(pe);
                lemma_track_push(dl, pv, pe);
                assert(dl =~= seq![pe]);
            }
        },
        Err(e) => {
            run.done = true;
            run.fatal = Some(Fatal::SessionFailed { err: e });
            return true;
        },
    }
    let ghost h1 = s.history@;
    // rebuild the row-as-table binding
    let empty_names: Vec<Vec<u8>> = Vec::new();
    let col_names = if opts.no_headers {
        &empty_names
    } else {
        headers
    };
    match set_row_table(s, row, col_names) {
        Ok(_) => {
            proof {
                let pe = Event::PutRow { fields: views(row@), names: views(col_names@) };
                lemma_skip_push(h1, b, pe);
                lemma_track_io(s.history@.skip(b), h1.skip(b), pe);
                assert(s.history@.subrange(0, h0.len() as int) =~= h0);
                assert(rows_v[pos_us as int] == views(rows@[pos_us as int]@));
                assert(views(col_names@) =~= gnames);
                let pv = dl;
                lemma_hist_push(h0, dl, s.history@, pe);
                dl = dl.push(pe);
                lemma_track_push(dl, pv, pe);
                assert(dl =~= seq![
                    Event::PutInt { name: name_idx(), value: pv_idx },
                    Event::PutRow { fields: rows_v[pos_us as int], names: gnames },
                ]);
            }
        },
        Err(e) => {
            run.done = true;
            run.fatal = Some(Fatal::SessionFailed { err: e });
            return true;
        },
    }
    // rebuild the per-column globals, reserved names excepted
    if !opts.no_globals && !opts.no_headers {
        let kmax = if headers.len() < row.len() {
            headers.len()
        } else {
            row.len()
        };
        let mut k: usize = 0;
        proof {
            assert(dl =~= seq![
                Event::PutInt { name: name_idx(), value: pv_idx },
                Event::PutRow { fields: rows_v[pos_us as int], names: gnames },
            ] + glob_events_upto(hv, rows_v[pos_us as int], 0));
        }
        while k < kmax
            invariant
                k <= kmax,
                kmax <= headers@.len() && kmax <= rows@[pos_us as int]@.len(),
                pos_us < rows@.len(),
                *run == run0,
                io_replies_of(s.history@.skip(b)) == ios0,
                s.history@.len() >= h0.len(),
                s.history@.subrange(0, h0.len() as int) == h0,
                b <= s.history@.len(),
                s.history@ == h0 + dl,
                replies_of(dl).len() == 0,
                dl == seq![
                    Event::PutInt { name: name_idx(), value: pv_idx },
                    Event::PutRow { fields: rows_v[pos_us as int], names: gnames },
                ] + glob_events_upto(hv, rows_v[pos_us as int], k as int),
            decreases kmax - k,
        {
            proof {
                assert(hv[k as int] == headers@[k as int]@);
                assert(rows_v[pos_us as int][k as int] == rows@[pos_us as int]@[k as int]@);
            }
            if !is_reserved_name(&headers[k]) {
                let ghost hk = s.history@;
                match set_global_str(s, &headers[k], &row[k]) {
                    Ok(_) => {
                        proof {
                            let pe = Event::PutStr {
                                name: headers@[k as int]@,
                                value: rows@[pos_us as int]@[k as int]@,
                            };
                            lemma_skip_push(hk, b, pe);
                            lemma_track_io(s.history@.skip(b), hk.skip(b), pe);
                            assert(s.history@.subrange(0, h0.len() as int) =~= h0);
                            let pv = dl;
                            lemma_hist_push(h0, dl, s.history@, pe);
                            dl = dl.push(pe);
                            lemma_track_push(dl, pv, pe);
                            assert(glob_events_upto(hv, rows_v[pos_us as int], k + 1)
                                =~= glob_events_upto(hv, rows_v[pos_us as int], k as int)
                                + seq![pe]);
                            assert(dl =~= seq![
                                Event::PutInt { name: name_idx(), value: pv_idx },
                                Event::PutRow { fields: rows_v[pos_us as int], names: gnames },
                            ] + glob_events_upto(hv, rows_v[pos_us as int], k + 1));
                        }
                    },
                    Err(e) => {
                        run.done = true;
                        run.fatal = Some(Fatal::SessionFailed { err: e });
                        return true;
                    },
                }
            } else {
                proof {
                    assert(glob_events_upto(hv, rows_v[pos_us as int], k + 1)
                        =~= glob_events_upto(hv, rows_v[pos_us as int], k as int));
                }
            }
            k += 1;
        }
    }
    proof {
        assert(dl =~= seq![
            Event::PutInt { name: name_idx(), value: pv_idx },
            Event::PutRow { fields: rows_v[pos_us as int], names: gnames },
        ] + glob_events(hv, rows_v[pos_us as int], *opts));
    }
    // run MAIN for this row and account the outcome
    let ghost h2 = s.history@;
    let mut row_err = false;
    match &cp.main {
        Ok(bc) => match run_main_chunk(s, bc) {
            Ok(c) => {
                proof {
                    let pe = Event::RanMain { outcome: Ok(c@) };
                    lemma_skip_push(h2, b, pe);
                    lemma_track_io(s.history@.skip(b), h2.skip(b), pe);
                    lemma_ind_fold_push(
                        rows_v,
                        ios0,
                        Reply::M(Ok(c@)),
                        opts.map_mode,
                        ncols,
                        opts.max_errors,
                    );
                    assert(s.history@.subrange(0, h0.len() as int) =~= h0);
                    let pv = dl;
                    lemma_hist_push(h0, dl, s.history@, pe);
                    dl = dl.push(pe);
                    lemma_track_push(dl, pv, pe);
                    assert(replies_of(dl) =~= seq![Ok::<SRes, Seq<u8>>(c@)]);
                    assert(ind_row_events(
                        hv,
                        gnames,
                        rows_v[pos_us as int],
                        pos_us as int,
                        replies_of(dl)[0],
                        *opts,
                    ) =~= pv + seq![pe]);
                    assert(dl =~= ind_row_events(
                        hv,
                        gnames,
                        rows_v[pos_us as int],
                        pos_us as int,
                        replies_of(dl)[0],
                        *opts,
                    ));
                }
                if opts.map_mode {
                    match to_output_fields(&c, ncols) {
                        Ok(fields) => {
                            let ghost recs0 = views3(run.records@);
                            let rec = record_with_fields(row, &fields);
                            run.records.push(rec);
                            proof {
                                assert(views3(run.records@) =~= recs0.push(
                                    views(row@) + views(fields@),
                                ));
                            }
                        },
                        Err(d) => {
                            proof {
                                lemma_skip_prefix(h0, dl, s.history@);
                            }
                            run.fatal = Some(Fatal::BadValue { desc: d });
                            run.done = true;
                            return true;
                        },
                    }
                } else {
                    if to_filter_decision(&c, false) {
                        let ghost recs0 = views3(run.records@);
                        run.records.push(clone_record(row));
                        proof {
                            assert(views3(run.records@) =~= recs0.push(views(row@)));
                        }
                    }
                }
            },
            Err(e) => {
                proof {
                    let pe = Event::RanMain { outcome: Err(e@) };
                    lemma_skip_push(h2, b, pe);
                    lemma_track_io(s.history@.skip(b), h2.skip(b), pe);
                    lemma_ind_fold_push(
                        rows_v,
                        ios0,
                        Reply::M(Err(e@)),
                        opts.map_mode,
                        ncols,
                        opts.max_errors,
                    );
                    assert(s.history@.subrange(0, h0.len() as int) =~= h0);
                    let pv = dl;
                    lemma_hist_push(h0, dl, s.history@, pe);
                    dl = dl.push(pe);
                    lemma_track_push(dl, pv, pe);
                    assert(replies_of(dl) =~= seq![Err::<SRes, Seq<u8>>(e@)]);
                    assert(ind_row_events(
                        hv,
                        gnames,
                        rows_v[pos_us as int],
                        pos_us as int,
                        replies_of(dl)[0],
                        *opts,
                    ) =~= pv + seq![pe]);
                    assert(dl =~= ind_row_events(
                        hv,
                        gnames,
                        rows_v[pos_us as int],
                        pos_us as int,
                        replies_of(dl)[0],
                        *opts,
                    ));
                }
                row_err = true;
            },
        },
        Err(ce) => {
            note_failed_main(s, ce);
            proof {
                let pe = Event::RanMain { outcome: Err(ce@) };
                lemma_skip_push(h2, b, pe);
                lemma_track_io(s.history@.skip(b), h2.skip(b), pe);
                lemma_ind_fold_push(
                    rows_v,
                    ios0,
                    Reply::M(Err(ce@)),
                    opts.map_mode,
                    ncols,
                    opts.max_errors,
                );
                assert(s.history@.subrange(0, h0.len() as int) =~= h0);
                let pv = dl;
                lemma_hist_push(h0, dl, s.history@, pe);
                dl = dl.push(pe);
                lemma_track_push(dl, pv, pe);
                assert(replies_of(dl) =~= seq![Err::<SRes, Seq<u8>>(ce@)]);
                assert(ind_row_events(
                    hv,
                    gnames,
                    rows_v[pos_us as int],
                    pos_us as int,
                    replies_of(dl)[0],
                    *opts,
                ) =~= pv + seq![pe]);
                assert(dl =~= ind_row_events(
                    hv,
                    gnames,
                    rows_v[pos_us as int],
                    pos_us as int,
                    replies_of(dl)[0],
                    *opts,
                ));
            }
            row_err = true;
        },
    }
    if row_err {
        run.errs = run.errs + 1;
        if opts.max_errors > 0 && run.errs > opts.max_errors {
            proof {
                lemma_skip_prefix(h0, dl, s.history@);
            }
            run.done = true;
            return true;
        } else if opts.map_mode {
            let ghost recs0 = views3(run.records@);
            run.records.push(record_with_sentinel(row));
            proof {
                assert(views3(run.records@) =~= recs0.push(views(row@).push(txt_sentinel())));
            }
        } else {
            let ghost recs0 = views3(run.records@);
            run.records.push(clone_record(row));
            proof {
                assert(views3(run.records@) =~= recs0.push(views(row@)));
            }
        }
    }
    // poll the cursor to decide the next position
    let ghost h3 = s.history@;
    let ghost ios1 = io_replies_of(h3.skip(b));
    let n_index = index_var_vec();
    let v = read_global_int(s, &n_index);
    proof {
        let pe = Event::GotInt { name: txt_index_var(), value: v };
        lemma_skip_push(h3, b, pe);
        lemma_track_io(s.history@.skip(b), h3.skip(b), pe);
        lemma_ind_fold_push(rows_v, ios1, Reply::R(v), opts.map_mode, ncols, opts.max_errors);
        assert(s.history@.subrange(0, h0.len() as int) =~= h0);
        let pv = dl;
        lemma_hist_push(h0, dl, s.history@, pe);
        dl = dl.push(pe);
        lemma_track_push(dl, pv, pe);
        assert(dl.last() == pe);
        assert(dl =~= pv + seq![pe]);
        lemma_skip_prefix(h0, dl, s.history@);
    }
    match next_position(v, rc) {
        None => {
            run.done = true;
            true
        },
        Some(next) => {
            if next >= rc {
                run.done = true;
                true
            } else {
                run.pos = next;
                false
            }
        },
    }
}

/// Closes one run of either traversal shape over the indexed reader: a
/// fatal end is reported as it stands (END never runs after a fatal);
/// otherwise END runs — over the row total fixed at BEGIN, which the
/// indexed scan never updates — and its text becomes the diagnostic line.
pub fn indexed_finish(s: &mut Session, run: IndexedRun, cp: &CompiledPhases) -> (r: RunOutput)
    ensures
        views3(r.records@) == views3(run.records@),
        r.error_count == run.errs,
        (run.fatal matches Some(f) ==> {
            &&& r.fatal matches Some(g) && g@ == f@
            &&& r.diagnostic is None
            &&& final(s).history@ == old(s).history@
        }),
        run.fatal is None ==> ({
            let evs = final(s).history@.skip(old(s).history@.len() as int);
            &&& final(s).history@.len() >= old(s).history@.len()
            &&& final(s).history@.subrange(0, old(s).history@.len() as int) == old(s).history@
            // END is the only exchange here: the history is untouched when
            // no compiled END chunk exists, and grows by exactly the one
            // END attempt when one does
            &&& (match cp.end {
                Some(ec) => (ec is Ok ==> (end_outcome_of(evs) matches Some(o) && evs == seq![
                    Event::RanEnd { outcome: o },
                ])) && (ec is Err ==> final(s).history@ == old(s).history@),
                None => final(s).history@ == old(s).history@,
            })
            &&& match cp.end {
                None => r.fatal is None && r.diagnostic is None && end_outcome_of(evs) is None,
                Some(ec) => match ec {
                    Err(_) => {
                        &&& r.fatal is None
                        &&& r.diagnostic matches Some(dg) && dg@ == txt_sentinel()
                        &&& end_outcome_of(evs) is None
                    },
                    Ok(_) => match end_outcome_of(evs) {
                        Some(Err(_)) => {
                            &&& r.fatal is None
                            &&& r.diagnostic matches Some(dg) && dg@ == txt_sentinel()
                        },
                        Some(Ok(res)) => match spec_end_text(res) {
                            Ok(t) => {
                                &&& r.fatal is None
                                &&& r.diagnostic matches Some(dg) && dg@ == t
                            },
                            Err(d) => {
                                &&& r.fatal matches Some(f) && f@ == (FatalV::BadEndValue {
                                    desc: d,
                                })
                                &&& r.diagnostic is None
                            },
                        },
                        None => false,
                    },
                },
            }
        }),
{
    let ghost h0 = old(s).history@;
    let ghost mut evs: Seq<Event> = Seq::empty();
    proof {
        assert(s.history@ =~= h0 + evs);
    }
    match run.fatal {
        Some(f) => {
            return RunOutput {
                records: run.records,
                diagnostic: None,
                error_count: run.errs,
                fatal: Some(f),
            };
        },
        None => {},
    }
    let mut diagnostic: Option<Vec<u8>> = None;
    match &cp.end {
        None => {},
        Some(endc) => match endc {
            Err(_ce) => {
                diagnostic = Some(sentinel_text());
            },
            Ok(bc) => {
                match run_end_chunk(s, bc) {
                    Err(e) => {
                        proof {
                            let pe = Event::RanEnd { outcome: Err(e@) };
                            let pv = evs;
                            lemma_hist_push(h0, evs, s.history@, pe);
                            evs = evs.push(pe);
                            lemma_track_push(evs, pv, pe);
                            assert(evs =~= seq![pe]);
                        }
                        diagnostic = Some(sentinel_text());
                    },
                    Ok(c) => {
                        proof {
                            let pe = Event::RanEnd { outcome: Ok(c@) };
                            let pv = evs;
                            lemma_hist_push(h0, evs, s.history@, pe);
                            evs = evs.push(pe);
                            lemma_track_push(evs, pv, pe);
                            assert(evs =~= seq![pe]);
                        }
                        match to_end_text(&c) {
                            Ok(t) => {
                                diagnostic = Some(t);
                            },
                            Err(d) => {
                                proof {
                                    lemma_skip_prefix(h0, evs, s.history@);
                                }
                                return RunOutput {
                                    records: run.records,
                                    diagnostic: None,
                                    error_count: run.errs,
                                    fatal: Some(Fatal::BadEndValue { desc: d }),
                                };
                            },
                        }
                    },
                }
            },
        },
    }
    proof {
        lemma_skip_prefix(h0, evs, s.history@);
    }
    RunOutput { records: run.records, diagnostic, error_count: run.errs, fatal: None }
}

} // verus!
