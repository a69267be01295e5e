//! The record scanner: one forward pass over the token stream, counting every
//! `Record` element, and extracting an entry from each one whose `type`
//! attribute names a blood-glucose measurement.

use vstd::prelude::*;

use crate::localizer::{display_time, format_time, parse_timestamp_spec};
use crate::models::{BloodGlucoseEntry, EntryModel, ErrorKind, RunModel, RunResult, ScanError, kind_of};
use crate::xml::{
    AttrModel, RawAttr, TokenModel, TokenStream, XmlToken, attrs_model, doc_tokens, next_token,
    stream_rest, token_matches, token_stream_new, unescape_attr, unescaped,
};

verus! {

/// The element name the scanner looks for.
pub open spec fn record_name() -> Seq<char> {
    "Record"@
}

/// The type identifier that marks a record as a blood-glucose measurement.
pub open spec fn bg_type() -> Seq<char> {
    "HKQuantityTypeIdentifierBloodGlucose"@
}

/// The first attribute named `type`, in document order.
pub open spec fn find_type_attr(attrs: Seq<AttrModel>) -> Option<AttrModel>
    decreases attrs.len(),
{
    if attrs.len() == 0 {
        None
    } else if attrs.first().key == "type"@ {
        Some(attrs.first())
    } else {
        find_type_attr(attrs.drop_first())
    }
}

/// An entry before any attribute is applied: every field empty.
pub open spec fn empty_entry() -> EntryModel {
    EntryModel {
        source_name: Seq::empty(),
        creation_date: Seq::empty(),
        start_date: Seq::empty(),
        end_date: Seq::empty(),
        time: Seq::empty(),
        value: Seq::empty(),
        unit: Seq::empty(),
    }
}

/// One attribute applied to an entry under construction. The recognized
/// attributes have their text unescaped into the matching field — a later
/// occurrence of the same name overwrites an earlier one — and a start
/// timestamp at once derives the display time; any other attribute is
/// ignored. An unresolvable escape, or a start timestamp outside the fixed
/// pattern, aborts the run.
pub open spec fn apply_attr(e: EntryModel, a: AttrModel) -> Result<EntryModel, ErrorKind> {
    if a.key == "sourceName"@ {
        match unescaped(a.value) {
            Some(v) => Ok(EntryModel { source_name: v, ..e }),
            None => Err(ErrorKind::Escape),
        }
    } else if a.key == "creationDate"@ {
        match unescaped(a.value) {
            Some(v) => Ok(EntryModel { creation_date: v, ..e }),
            None => Err(ErrorKind::Escape),
        }
    } else if a.key == "startDate"@ {
        match unescaped(a.value) {
            Some(v) => match parse_timestamp_spec(v) {
                Some(ts) => Ok(EntryModel { start_date: v, time: display_time(ts), ..e }),
                None => Err(ErrorKind::Timestamp),
            },
            None => Err(ErrorKind::Escape),
        }
    } else if a.key == "endDate"@ {
        match unescaped(a.value) {
            Some(v) => Ok(EntryModel { end_date: v, ..e }),
            None => Err(ErrorKind::Escape),
        }
    } else if a.key == "value"@ {
        match unescaped(a.value) {
            Some(v) => Ok(EntryModel { value: v, ..e }),
            None => Err(ErrorKind::Escape),
        }
    } else if a.key == "unit"@ {
        match unescaped(a.value) {
            Some(v) => Ok(EntryModel { unit: v, ..e }),
            None => Err(ErrorKind::Escape),
        }
    } else {
        Ok(e)
    }
}

/// The entry a matching element's attribute list yields: every attribute
/// applied in document order, or the first abort.
pub open spec fn build_entry(attrs: Seq<AttrModel>) -> Result<EntryModel, ErrorKind>
    decreases attrs.len(),
{
    if attrs.len() == 0 {
        Ok(empty_entry())
    } else {
        match build_entry(attrs.drop_last()) {
            Ok(e) => apply_attr(e, attrs.last()),
            Err(k) => Err(k),
        }
    }
}

/// One element seen: counted when it is named `Record`; an entry extracted
/// when its first `type` attribute unescapes to the blood-glucose identifier.
pub open spec fn step_element(st: RunModel, name: Seq<char>, attrs: Seq<AttrModel>) -> Result<
    RunModel,
    ErrorKind,
> {
    if name != record_name() {
        Ok(st)
    } else {
        let counted = RunModel { total_scanned: st.total_scanned + 1, ..st };
        match find_type_attr(attrs) {
            None => Ok(counted),
            Some(a) => match unescaped(a.value) {
                None => Err(ErrorKind::Escape),
                Some(ty) => if ty != bg_type() {
                    Ok(counted)
                } else {
                    match build_entry(attrs) {
                        Ok(e) => Ok(
                            RunModel {
                                entries: counted.entries.push(e),
                                total_scanned: counted.total_scanned,
                                total_matching: counted.total_matching + 1,
                            },
                        ),
                        Err(k) => Err(k),
                    }
                },
            },
        }
    }
}

/// One token consumed. A start tag and a self-closing tag are treated
/// identically; every other event is ignored; a structural error aborts.
pub open spec fn step(st: RunModel, t: TokenModel) -> Result<RunModel, ErrorKind> {
    match t {
        TokenModel::Start { name, attrs } => step_element(st, name, attrs),
        TokenModel::Empty { name, attrs } => step_element(st, name, attrs),
        TokenModel::Other => Ok(st),
        TokenModel::Malformed => Err(ErrorKind::Xml),
    }
}

/// The whole pass from a given state: tokens consumed in order until they run
/// out or one aborts.
pub open spec fn scan_from(st: RunModel, toks: Seq<TokenModel>) -> Result<RunModel, ErrorKind>
    decreases toks.len(),
{
    if toks.len() == 0 {
        Ok(st)
    } else {
        match step(st, toks.first()) {
            Ok(next) => scan_from(next, toks.drop_first()),
            Err(k) => Err(k),
        }
    }
}

/// The state a pass starts from: nothing seen.
pub open spec fn initial_state() -> RunModel {
    RunModel { entries: Seq::empty(), total_scanned: 0, total_matching: 0 }
}

/// What scanning a token sequence yields.
pub open spec fn scan_spec(toks: Seq<TokenModel>) -> Result<RunModel, ErrorKind> {
    scan_from(initial_state(), toks)
}

/// An aborted prefix decides the whole attribute list.
proof fn lemma_build_entry_err(m: Seq<AttrModel>, i: int)
    requires
        0 <= i <= m.len(),
        build_entry(m.take(i)) is Err,
    ensures
        build_entry(m) == build_entry(m.take(i)),
    decreases m.len() - i,
{
    if i < m.len() {
        assert(m.take(i + 1).drop_last() =~= m.take(i));
        lemma_build_entry_err(m, i + 1);
    } else {
        assert(m.take(i) =~= m);
    }
}

fn string_eq(a: &String, lit: &str) -> (r: bool)
    ensures
        r == (a@ == lit@),
{
    let b = String::from_str(lit);
    *a == b
}

/// Index of the first attribute named `type`, if any.
fn find_type(attrs: &Vec<RawAttr>) -> (r: Option<usize>)
    ensures
        match r {
            Some(i) => i < attrs.len() && find_type_attr(attrs_model(attrs@)) == Some(
                attrs@[i as int]@,
            ),
            None => find_type_attr(attrs_model(attrs@)) is None,
        },
{
    let ghost m = attrs_model(attrs@);
    proof {
        assert(m.skip(0) =~= m);
    }
    let mut i: usize = 0;
    while i < attrs.len()
        invariant
            i <= attrs.len(),
            m == attrs_model(attrs@),
            find_type_attr(m) == find_type_attr(m.skip(i as int)),
        decreases attrs.len() - i,
    {
        if string_eq(&attrs[i].key, "type") {
            proof {
                assert(m.skip(i as int).first() == m[i as int]);
            }
            return Some(i);
        }
        proof {
            assert(m.skip(i as int).drop_first() =~= m.skip(i as int + 1));
        }
        i = i + 1;
    }
    proof {
        assert(m.skip(i as int) =~= Seq::<AttrModel>::empty());
    }
    None
}

/// Extracts the entry of one matching element: the recognized attributes
/// unescaped into their fields in document order, the display time derived
/// from the start timestamp as soon as it is seen.
pub fn extract_entry(attrs: &Vec<RawAttr>) -> (r: Result<BloodGlucoseEntry, ScanError>)
    ensures
        match r {
            Ok(e) => build_entry(attrs_model(attrs@)) == Ok::<EntryModel, ErrorKind>(e@),
            Err(er) => build_entry(attrs_model(attrs@)) == Err::<EntryModel, ErrorKind>(
                kind_of(er),
            ),
        },
{
    let ghost m = attrs_model(attrs@);
    let mut entry = BloodGlucoseEntry {
        source_name: String::new(),
        creation_date: String::new(),
        start_date: String::new(),
        end_date: String::new(),
        time: String::new(),
        value: String::new(),
        unit: String::new(),
    };
    let mut i: usize = 0;
    while i < attrs.len()
        invariant
            i <= attrs.len(),
            m == attrs_model(attrs@),
            build_entry(m.take(i as int)) == Ok::<EntryModel, ErrorKind>(entry@),
        decreases attrs.len() - i,
    {
        let a = &attrs[i];
        proof {
            assert(m.take(i as int + 1).drop_last() =~= m.take(i as int));
            assert(m.take(i as int + 1).last() == m[i as int]);
        }
        if string_eq(&a.key, "sourceName") {
            match unescape_attr(a.value.as_str()) {
                Ok(v) => { entry.source_name = v; },
                Err(e) => {
                    proof {
                        lemma_build_entry_err(m, i as int + 1);
                    }
                    return Err(e);
                },
            }
        } else if string_eq(&a.key, "creationDate") {
            match unescape_attr(a.value.as_str()) {
                Ok(v) => { entry.creation_date = v; },
                Err(e) => {
                    proof {
                        lemma_build_entry_err(m, i as int + 1);
                    }
                    return Err(e);
                },
            }
        } else if string_eq(&a.key, "startDate") {
            match unescape_attr(a.value.as_str()) {
                Ok(v) => match format_time(v.as_str()) {
                    Ok(t) => {
                        entry.start_date = v;
                        entry.time = t;
                    },
                    Err(e) => {
                        proof {
                            lemma_build_entry_err(m, i as int + 1);
                        }
                        return Err(e);
                    },
                },
                Err(e) => {
                    proof {
                        lemma_build_entry_err(m, i as int + 1);
                    }
                    return Err(e);
                },
            }
        } else if string_eq(&a.key, "endDate") {
            match unescape_attr(a.value.as_str()) {
                Ok(v) => { entry.end_date = v; },
                Err(e) => {
                    proof {
                        lemma_build_entry_err(m, i as int + 1);
                    }
                    return Err(e);
                },
            }
        } else if string_eq(&a.key, "value") {
            match unescape_attr(a.value.as_str()) {
                Ok(v) => { entry.value = v; },
                Err(e) => {
                    proof {
                        lemma_build_entry_err(m, i as int + 1);
                    }
                    return Err(e);
                },
            }
        } else if string_eq(&a.key, "unit") {
            match unescape_attr(a.value.as_str()) {
                Ok(v) => { entry.unit = v; },
                Err(e) => {
                    proof {
                        lemma_build_entry_err(m, i as int + 1);
                    }
                    return Err(e);
                },
            }
        }
        i = i + 1;
    }
    proof {
        assert(m.take(i as int) =~= m);
    }
    Ok(entry)
}

/// Scanning distributes over splitting the token sequence: the pass runs the
/// prefix first and, where that does not abort, continues over the suffix
/// from the state the prefix reached.
pub proof fn lemma_scan_append(st: RunModel, t1: Seq<TokenModel>, t2: Seq<TokenModel>)
    ensures
        scan_from(st, t1 + t2) == (match scan_from(st, t1) {
            Ok(mid) => scan_from(mid, t2),
            Err(k) => Err::<RunModel, ErrorKind>(k),
        }),
    decreases t1.len(),
{
    if t1.len() == 0 {
        assert(t1 + t2 =~= t2);
    } else {
        assert((t1 + t2).first() == t1.first());
        assert((t1 + t2).drop_first() =~= t1.drop_first() + t2);
        match step(st, t1.first()) {
            Ok(next) => lemma_scan_append(next, t1.drop_first(), t2),
            Err(_) => {},
        }
    }
}

/// One element handled, executably: the counter bumped for a `Record` name,
/// the entry extracted and kept where the type matches.
fn step_record(run: &mut RunResult, name: &String, attrs: &Vec<RawAttr>) -> (r: Result<
    (),
    ScanError,
>)
    requires
        old(run).total_scanned < usize::MAX,
        old(run)@.wf(),
    ensures
        match r {
            Ok(_) => step_element(old(run)@, name@, attrs_model(attrs@)) == Ok::<
                RunModel,
                ErrorKind,
            >(final(run)@) && final(run)@.wf() && final(run).total_scanned <= old(
                run,
            ).total_scanned + 1,
            Err(e) => step_element(old(run)@, name@, attrs_model(attrs@)) == Err::<
                RunModel,
                ErrorKind,
            >(kind_of(e)),
        },
{
    if !string_eq(name, "Record") {
        return Ok(());
    }
    run.total_scanned = run.total_scanned + 1;
    let type_index = match find_type(attrs) {
        Some(i) => i,
        None => { return Ok(()) },
    };
    let ty = match unescape_attr(attrs[type_index].value.as_str()) {
        Ok(v) => v,
        Err(e) => { return Err(e) },
    };
    if !string_eq(&ty, "HKQuantityTypeIdentifierBloodGlucose") {
        return Ok(());
    }
    let entry = match extract_entry(attrs) {
        Ok(e) => e,
        Err(e) => { return Err(e) },
    };
    run.total_matching = run.total_matching + 1;
    run.entries.push(entry);
    proof {
        assert(run@.entries =~= old(run)@.entries.push(entry@));
    }
    Ok(())
}

/// The whole pipeline on an in-memory document: a single pass over its
/// tokens. The result is exactly what the scan of the document's token
/// sequence yields — the entries of the matching records in document order
/// with both counters, or the first abort.
#[verifier::rlimit(100)]
#[verifier::loop_isolation(false)]
pub fn parse_xml(input: Vec<u8>) -> (r: Result<RunResult, ScanError>)
    ensures
        match r {
            Ok(rr) => scan_spec(doc_tokens(input@)) == Ok::<RunModel, ErrorKind>(rr@) && rr@.wf(),
            Err(e) => scan_spec(doc_tokens(input@)) == Err::<RunModel, ErrorKind>(kind_of(e)),
        },
{
    let ghost toks = doc_tokens(input@);
    let doc_len: usize = input.len();
    let ghost input_len = doc_len as int;
    let mut stream = token_stream_new(input);
    let mut run = RunResult { entries: Vec::new(), total_scanned: 0, total_matching: 0 };
    let ghost mut consumed: int = 0;
    proof {
        assert(toks.take(0) =~= Seq::<TokenModel>::empty());
        assert(run@.entries =~= Seq::<EntryModel>::empty());
    }
    loop
        invariant
            0 <= consumed <= toks.len(),
            toks.len() <= input_len,
            input_len <= usize::MAX,
            stream_rest(stream) == toks.skip(consumed),
            scan_from(initial_state(), toks.take(consumed)) == Ok::<RunModel, ErrorKind>(run@),
            run@.wf(),
            run.total_scanned <= consumed,
        decreases toks.len() - consumed,
    {
        let ghost rest = stream_rest(stream);
        let ghost pre = run@;
        let t = next_token(&mut stream);
        match t {
            Ok(XmlToken::Eof) => {
                proof {
                    if rest.len() > 0 {
                        lemma_elem_token(Ok(XmlToken::Eof), rest.first());
                    }
                    lemma_take_all(toks);
                }
                return Ok(run);
            },
            Ok(XmlToken::Start(el)) => {
                let ghost m = rest.first();
                proof {
                    lemma_elem_token(Ok(XmlToken::Start(el)), m);
                }
                match step_record(&mut run, &el.name, &el.attrs) {
                    Ok(_) => {},
                    Err(e) => {
                        proof {
                            lemma_scan_err_tail(toks, consumed, pre, kind_of(e));
                        }
                        return Err(e);
                    },
                }
                proof {
                    lemma_scan_push(toks, consumed, pre, run@);
                    lemma_skip_one(toks, consumed);
                    consumed = consumed + 1;
                }
            },
            Ok(XmlToken::Empty(el)) => {
                let ghost m = rest.first();
                proof {
                    lemma_elem_token(Ok(XmlToken::Empty(el)), m);
                }
                match step_record(&mut run, &el.name, &el.attrs) {
                    Ok(_) => {},
                    Err(e) => {
                        proof {
                            lemma_scan_err_tail(toks, consumed, pre, kind_of(e));
                        }
                        return Err(e);
                    },
                }
                proof {
                    lemma_scan_push(toks, consumed, pre, run@);
                    lemma_skip_one(toks, consumed);
                    consumed = consumed + 1;
                }
            },
            Ok(XmlToken::Other) => {
                proof {
                    lemma_elem_token(Ok(XmlToken::Other), rest.first());
                    lemma_scan_push(toks, consumed, pre, run@);
                    lemma_skip_one(toks, consumed);
                    consumed = consumed + 1;
                }
            },
            Err(e) => {
                proof {
                    lemma_elem_token(Err(e), rest.first());
                    lemma_scan_err_tail(toks, consumed, pre, kind_of(e));
                }
                return Err(e);
            },
        }
    }
}

/// What realizing a token model says of the model, read off per variant of
/// the executable outcome. An end-of-document outcome realizes no model at
/// all: it only comes once the stream is exhausted.
proof fn lemma_elem_token(t: Result<XmlToken, ScanError>, m: TokenModel)
    requires
        token_matches(t, m),
    ensures
        t matches Ok(tok) ==> match tok {
            XmlToken::Start(el) => m == (TokenModel::Start {
                name: el.name@,
                attrs: attrs_model(el.attrs@),
            }),
            XmlToken::Empty(el) => m == (TokenModel::Empty {
                name: el.name@,
                attrs: attrs_model(el.attrs@),
            }),
            XmlToken::Other => m is Other,
            XmlToken::Eof => false,
        },
        t matches Err(e) ==> m is Malformed && kind_of(e) == ErrorKind::Xml,
{
}

proof fn lemma_take_all(toks: Seq<TokenModel>)
    ensures
        toks.take(toks.len() as int) == toks,
{
    assert(toks.take(toks.len() as int) =~= toks);
}

proof fn lemma_skip_one(toks: Seq<TokenModel>, c: int)
    requires
        0 <= c < toks.len(),
    ensures
        toks.skip(c).drop_first() == toks.skip(c + 1),
{
    assert(toks.skip(c).drop_first() =~= toks.skip(c + 1));
}

// ---------------------------------------------------------------------------
// Laws of the scan.
// ---------------------------------------------------------------------------

/// Every matching record is also a scanned record, and exactly the matching
/// records produce entries: whatever token sequence a document yields, a
/// completed scan's counters satisfy `total_matching == entries.len()` and
/// `total_matching <= total_scanned`.
pub proof fn lemma_scan_well_formed(toks: Seq<TokenModel>)
    ensures
        scan_spec(toks) matches Ok(m) ==> m.wf(),
{
    lemma_scan_from_well_formed(initial_state(), toks);
}

proof fn lemma_scan_from_well_formed(st: RunModel, toks: Seq<TokenModel>)
    requires
        st.wf(),
    ensures
        scan_from(st, toks) matches Ok(m) ==> m.wf(),
    decreases toks.len(),
{
    if toks.len() > 0 {
        match step(st, toks.first()) {
            Ok(next) => {
                assert(next.wf());
                lemma_scan_from_well_formed(next, toks.drop_first());
            },
            Err(_) => {},
        }
    }
}

/// The scan is a function of the document's token sequence alone: two
/// completed passes over the same document agree on every entry and both
/// counters, so running the pipeline twice reproduces the result.
pub proof fn lemma_scan_deterministic(input: Seq<u8>, r1: RunModel, r2: RunModel)
    requires
        scan_spec(doc_tokens(input)) == Ok::<RunModel, ErrorKind>(r1),
        scan_spec(doc_tokens(input)) == Ok::<RunModel, ErrorKind>(r2),
    ensures
        r1 == r2,
{
}

/// Entries are only appended: a scan continued from a state keeps the
/// entries already produced, unchanged and in their order, at the front.
pub proof fn lemma_scan_preserves_order(st: RunModel, toks: Seq<TokenModel>)
    ensures
        scan_from(st, toks) matches Ok(m) ==> st.entries.len() <= m.entries.len()
            && m.entries.take(st.entries.len() as int) == st.entries,
    decreases toks.len(),
{
    if toks.len() == 0 {
        assert(st.entries.take(st.entries.len() as int) =~= st.entries);
    } else {
        match step(st, toks.first()) {
            Ok(next) => {
                lemma_scan_preserves_order(next, toks.drop_first());
                if scan_from(next, toks.drop_first()) is Ok {
                    let m = scan_from(next, toks.drop_first())->Ok_0;
                    assert(next.entries.take(st.entries.len() as int) =~= st.entries);
                    assert(m.entries.take(st.entries.len() as int) =~= m.entries.take(
                        next.entries.len() as int,
                    ).take(st.entries.len() as int));
                }
            },
            Err(_) => {},
        }
    }
}

/// Order preservation: entries stand in the output in the order of their
/// source elements. Scanning any longer document only appends — the entries
/// of a document prefix stand unchanged at the front of the whole document's
/// entries.
pub proof fn lemma_order_preserved(t1: Seq<TokenModel>, t2: Seq<TokenModel>)
    ensures
        scan_spec(t1 + t2) is Ok && scan_spec(t1) is Ok ==> (scan_spec(t1 + t2)->Ok_0).entries.take(
            (scan_spec(t1)->Ok_0).entries.len() as int,
        ) == (scan_spec(t1)->Ok_0).entries,
{
    lemma_scan_append(initial_state(), t1, t2);
    if scan_spec(t1 + t2) is Ok && scan_spec(t1) is Ok {
        lemma_scan_preserves_order(scan_spec(t1)->Ok_0, t2);
    }
}

/// A self-closing element and an open-tag element with the same name and
/// attributes are treated identically, wherever in the document they stand.
pub proof fn lemma_self_closing_alike(
    toks: Seq<TokenModel>,
    i: int,
    name: Seq<char>,
    attrs: Seq<AttrModel>,
)
    requires
        0 <= i < toks.len(),
    ensures
        scan_spec(toks.update(i, TokenModel::Start { name, attrs })) == scan_spec(
            toks.update(i, TokenModel::Empty { name, attrs }),
        ),
{
    let pre = toks.take(i);
    let post = toks.skip(i + 1);
    let sa = seq![TokenModel::Start { name, attrs }] + post;
    let sb = seq![TokenModel::Empty { name, attrs }] + post;
    assert(toks.update(i, TokenModel::Start { name, attrs }) =~= pre + sa);
    assert(toks.update(i, TokenModel::Empty { name, attrs }) =~= pre + sb);
    lemma_scan_append(initial_state(), pre, sa);
    lemma_scan_append(initial_state(), pre, sb);
    if scan_from(initial_state(), pre) is Ok {
        let mid = scan_from(initial_state(), pre)->Ok_0;
        assert(sa.drop_first() =~= post);
        assert(sb.drop_first() =~= post);
        assert(step(mid, sa.first()) == step(mid, sb.first()));
        reveal_with_fuel(scan_from, 2);
        assert(scan_from(mid, sa) == scan_from(mid, sb));
    }
}

/// The text of the last attribute with a given name, if any.
pub open spec fn last_attr(attrs: Seq<AttrModel>, key: Seq<char>) -> Option<Seq<char>>
    decreases attrs.len(),
{
    if attrs.len() == 0 {
        None
    } else if attrs.last().key == key {
        Some(attrs.last().value)
    } else {
        last_attr(attrs.drop_last(), key)
    }
}

/// The value field comes from the element's last `value` attribute alone:
/// absent that attribute it stays empty, otherwise it is that attribute's
/// unescaped text — so the field is empty only where the element carried no
/// `value` attribute, or carried one whose text unescapes to nothing.
pub proof fn lemma_value_from_source(attrs: Seq<AttrModel>)
    ensures
        build_entry(attrs) matches Ok(e) ==> e.value == (match last_attr(attrs, "value"@) {
            Some(raw) => unescaped(raw)->Some_0,
            None => Seq::<char>::empty(),
        }),
    decreases attrs.len(),
{
    reveal_strlit("sourceName");
    reveal_strlit("creationDate");
    reveal_strlit("startDate");
    reveal_strlit("endDate");
    reveal_strlit("value");
    if attrs.len() > 0 {
        lemma_value_from_source(attrs.drop_last());
        let rest = attrs.drop_last();
        let a = attrs.last();
        if build_entry(rest) is Ok && build_entry(attrs) is Ok {
            let e0 = build_entry(rest)->Ok_0;
            assert(build_entry(attrs) == apply_attr(e0, a));
            if a.key == "value"@ {
                assert(("value"@).len() == 5);
                assert(("sourceName"@).len() == 10);
                assert(("creationDate"@).len() == 12);
                assert(("startDate"@).len() == 9);
                assert(("endDate"@).len() == 7);
                assert(last_attr(attrs, "value"@) == Some(a.value));
                assert(apply_attr(e0, a)->Ok_0.value == unescaped(a.value)->Some_0);
            } else {
                assert(last_attr(attrs, "value"@) == last_attr(rest, "value"@));
                assert(apply_attr(e0, a)->Ok_0.value == e0.value);
            }
        }
    }
}

/// The display time comes from the element's last `startDate` attribute
/// alone: absent that attribute it stays empty; present, the entry holds the
/// display string of its parsed timestamp, which is never empty. So `time`
/// is non-empty exactly where the element carried a start timestamp.
pub proof fn lemma_time_from_source(attrs: Seq<AttrModel>)
    ensures
        build_entry(attrs) matches Ok(e) ==> match last_attr(attrs, "startDate"@) {
            Some(raw) => unescaped(raw) is Some && parse_timestamp_spec(unescaped(raw)->Some_0)
                is Some && e.time == display_time(
                parse_timestamp_spec(unescaped(raw)->Some_0)->Some_0,
            ) && e.time.len() == 11,
            None => e.time == Seq::<char>::empty(),
        },
    decreases attrs.len(),
{
    reveal_strlit("sourceName");
    reveal_strlit("creationDate");
    reveal_strlit("startDate");
    if attrs.len() > 0 {
        lemma_time_from_source(attrs.drop_last());
        let rest = attrs.drop_last();
        let a = attrs.last();
        if build_entry(rest) is Ok && build_entry(attrs) is Ok {
            let e0 = build_entry(rest)->Ok_0;
            assert(build_entry(attrs) == apply_attr(e0, a));
            if a.key == "startDate"@ {
                assert(("startDate"@).len() == 9);
                assert(("sourceName"@).len() == 10);
                assert(("creationDate"@).len() == 12);
                assert(last_attr(attrs, "startDate"@) == Some(a.value));
                let v = unescaped(a.value)->Some_0;
                crate::localizer::lemma_display_time_len(parse_timestamp_spec(v)->Some_0);
            } else {
                assert(last_attr(attrs, "startDate"@) == last_attr(rest, "startDate"@));
                assert(apply_attr(e0, a)->Ok_0.time == e0.time);
            }
        }
    }
}

/// A successful step extends a successful prefix scan by one token.
proof fn lemma_scan_push(toks: Seq<TokenModel>, c: int, pre: RunModel, post: RunModel)
    requires
        0 <= c < toks.len(),
        scan_from(initial_state(), toks.take(c)) == Ok::<RunModel, ErrorKind>(pre),
        step(pre, toks[c]) == Ok::<RunModel, ErrorKind>(post),
    ensures
        scan_from(initial_state(), toks.take(c + 1)) == Ok::<RunModel, ErrorKind>(post),
{
    lemma_scan_append(initial_state(), toks.take(c), seq![toks[c]]);
    assert(toks.take(c + 1) =~= toks.take(c) + seq![toks[c]]);
    let s1 = seq![toks[c]];
    assert(s1.first() == toks[c]);
    assert(s1.drop_first() =~= Seq::<TokenModel>::empty());
    reveal_with_fuel(scan_from, 2);
    assert(scan_from(pre, s1) == scan_from(post, s1.drop_first()));
    assert(scan_from(pre, s1) == Ok::<RunModel, ErrorKind>(post));
}

/// Where the prefix scan succeeded and the next token aborts, the whole scan
/// aborts with that same reason.
proof fn lemma_scan_err_tail(toks: Seq<TokenModel>, c: int, pre: RunModel, k: ErrorKind)
    requires
        0 <= c < toks.len(),
        scan_from(initial_state(), toks.take(c)) == Ok::<RunModel, ErrorKind>(pre),
        step(pre, toks[c]) == Err::<RunModel, ErrorKind>(k),
    ensures
        scan_spec(toks) == Err::<RunModel, ErrorKind>(k),
{
    lemma_scan_append(initial_state(), toks.take(c), toks.skip(c));
    assert(toks.take(c) + toks.skip(c) =~= toks);
    assert(toks.skip(c).first() == toks[c]);
}

} // verus!
