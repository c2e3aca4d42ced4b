//! The record store: an ordered sequence of tokens, one per line, whose
//! first line is the verification sentinel.  Records are added by appending
//! a token, listed by a full scan in file order, and edited by appending a
//! replacement token and then removing the stale line, so the physical line
//! order is the record's identity.
//!
//! The store works on the line sequence alone; reading it from and writing
//! it back to its backing file is its callers' concern.  A scan reports a
//! failure on one line as that line's own outcome and carries on, so one
//! corrupted record does not hide the rest.

use vstd::prelude::*;
use vstd::string::StrSliceExecFns;
use vstd::utf8::{encode_utf8, valid_utf8};

use crate::cipher::{open_bytes, open_bytes_spec, open_text_spec, opens_to, seal_bytes, seal_spec};
use crate::codec::{lemma_parse_serialize, lemma_serialize_valid, parse_bytes_spec, parse_record,
    serialize_record, serialize_spec, wf_record, Record, RecordView};
use crate::errors::StoreError;
use crate::keys::{generate_key, key16};
use crate::outside::bytes_to_string;

verus! {

/// `token` is a sealing of the serialized record `rv` under `pass`.
pub open spec fn token_holds(token: Seq<char>, pass: Seq<char>, rv: RecordView) -> bool {
    &&& pass.len() > 0
    &&& exists|iv: Seq<u8>|
        iv.len() == 16 && token == #[trigger] seal_spec(pass, iv, serialize_spec(rv))
}

/// What scanning one stored line under a non-empty passphrase yields: the
/// record it holds, or the exact error of the first stage that fails.
pub open spec fn scan_one_spec(pass: Seq<char>, line: Seq<char>) -> Result<RecordView, StoreError> {
    match open_bytes_spec(key16(pass), line) {
        Err(e) => Err(e),
        Ok(b) => if !valid_utf8(b) {
            Err(StoreError::TextDecodingError)
        } else {
            parse_bytes_spec(b)
        },
    }
}

/// What scanning a store yields: one outcome for each line after the
/// sentinel, in file order.
pub open spec fn scan_spec(pass: Seq<char>, lines: Seq<Seq<char>>) -> Seq<
    Result<RecordView, StoreError>,
> {
    Seq::new(
        if lines.len() == 0 {
            0
        } else {
            (lines.len() - 1) as nat
        },
        |i: int| scan_one_spec(pass, lines[i + 1]),
    )
}

/// The record a scan entry stands for.
pub open spec fn entry_view(e: Result<Record, StoreError>) -> Result<RecordView, StoreError> {
    match e {
        Ok(r) => Ok(r@),
        Err(er) => Err(er),
    }
}

/// The records a vector of scan entries stands for.
pub open spec fn entries_view(es: Seq<Result<Record, StoreError>>) -> Seq<
    Result<RecordView, StoreError>,
> {
    es.map_values(|e: Result<Record, StoreError>| entry_view(e))
}

/// A scan outcome honors the stored tokens: every line that is a sealing of
/// a well-formed record under the passphrase scans to exactly that record.
pub open spec fn scan_honors(
    pass: Seq<char>,
    lines: Seq<Seq<char>>,
    esv: Seq<Result<RecordView, StoreError>>,
) -> bool {
    forall|i: int, rv: RecordView|
        0 <= i < esv.len() && #[trigger] token_holds(lines[i + 1], pass, rv) && wf_record(rv)
            ==> esv[i] == Ok::<RecordView, StoreError>(rv)
}

/// Scan one line under the derived key: open the token, decode the payload
/// as text, parse the record.
fn scan_line(key: &Vec<u8>, ghost_pass: Ghost<Seq<char>>, line: &String) -> (e: Result<
    Record,
    StoreError,
>)
    requires
        ghost_pass@.len() > 0,
        key@ == key16(ghost_pass@),
        key@.len() == 16,
    ensures
        entry_view(e) == scan_one_spec(ghost_pass@, line@),
        forall|rv: RecordView|
            #[trigger] token_holds(line@, ghost_pass@, rv) && wf_record(rv) ==> entry_view(e)
                == Ok::<RecordView, StoreError>(rv),
{
    let opened = open_bytes(key, line.as_str());
    proof {
        assert forall|rv: RecordView|
            #[trigger] token_holds(line@, ghost_pass@, rv) && wf_record(rv) implies opened is Ok
            && opened->Ok_0@ == serialize_spec(rv) by {
            let iv = choose|iv: Seq<u8>|
                iv.len() == 16 && line@ == #[trigger] seal_spec(
                    ghost_pass@,
                    iv,
                    serialize_spec(rv),
                );
            assert(line@ == crate::outside::b64_of(
                iv + crate::outside::cbc_enc_of(key@, iv, serialize_spec(rv)),
            ));
        }
    }
    let payload = match opened {
        Ok(p) => p,
        Err(e) => {
            return Err(e);
        },
    };
    match bytes_to_string(payload.as_slice()) {
        Some(_text) => {
            let parsed = parse_record(&payload);
            proof {
                assert forall|rv: RecordView|
                    #[trigger] token_holds(line@, ghost_pass@, rv) && wf_record(rv) implies
                    entry_view(parsed) == Ok::<RecordView, StoreError>(rv) by {
                    lemma_parse_serialize(rv);
                }
            }
            parsed
        },
        None => {
            proof {
                assert forall|rv: RecordView|
                    #[trigger] token_holds(line@, ghost_pass@, rv) && wf_record(rv) implies
                    false by {
                    lemma_serialize_valid(rv);
                }
            }
            Err(StoreError::TextDecodingError)
        },
    }
}

/// Scan every line after the sentinel, in file order, reporting each line's
/// own outcome.  Fails as a whole only for an empty passphrase.
pub fn scan(password: &str, lines: &Vec<String>) -> (r: Result<
    Vec<Result<Record, StoreError>>,
    StoreError,
>)
    ensures
        r is Err <==> password@.len() == 0,
        r is Err ==> r == Err::<Vec<Result<Record, StoreError>>, StoreError>(
            StoreError::KeyDerivationError,
        ),
        r matches Ok(es) ==> entries_view(es@) == scan_spec(password@, lines.deep_view()),
        r matches Ok(es) ==> scan_honors(password@, lines.deep_view(), entries_view(es@)),
{
    let key = match generate_key(password, 16) {
        Ok(k) => k,
        Err(e) => {
            return Err(e);
        },
    };
    let ghost pass = password@;
    let mut entries: Vec<Result<Record, StoreError>> = Vec::new();
    let mut i: usize = 1;
    while i < lines.len()
        invariant
            pass == password@,
            pass.len() > 0,
            key@ == key16(pass),
            key@.len() == 16,
            1 <= i,
            lines@.len() > 0 ==> i <= lines@.len(),
            lines@.len() == 0 ==> i == 1,
            entries@.len() == i - 1,
            forall|j: int|
                0 <= j < i - 1 ==> entry_view(#[trigger] entries@[j]) == scan_one_spec(
                    pass,
                    lines.deep_view()[j + 1],
                ),
            forall|j: int, rv: RecordView|
                0 <= j < i - 1 && #[trigger] token_holds(lines.deep_view()[j + 1], pass, rv)
                    && wf_record(rv) ==> entry_view(entries@[j]) == Ok::<
                    RecordView,
                    StoreError,
                >(rv),
        decreases lines@.len() - i,
    {
        let entry = scan_line(&key, Ghost(pass), &lines[i]);
        entries.push(entry);
        i = i + 1;
    }
    proof {
        assert(entries_view(entries@) =~= scan_spec(pass, lines.deep_view()));
    }
    Ok(entries)
}

/// Create the line sequence of a fresh store: the single sentinel line,
/// sealing the reserved marker text under the passphrase.
pub fn create(password: &str) -> (r: Result<Vec<String>, StoreError>)
    ensures
        r is Err <==> password@.len() == 0,
        r is Err ==> r == Err::<Vec<String>, StoreError>(StoreError::KeyDerivationError),
        r matches Ok(lines) ==> lines@.len() == 1 && opens_to(
            lines.deep_view()[0],
            password@,
            "OK"@,
        ),
{
    let key = match generate_key(password, 16) {
        Ok(k) => k,
        Err(e) => {
            return Err(e);
        },
    };
    let marker = "OK";
    let data = marker.as_bytes_vec();
    let token = seal_bytes(&key, data.as_slice());
    let mut lines: Vec<String> = Vec::new();
    lines.push(token);
    proof {
        let iv = choose|iv: Seq<u8>|
            iv.len() == 16 && token@ == crate::outside::b64_of(
                iv + #[trigger] crate::outside::cbc_enc_of(key@, iv, data@),
            );
        assert(token@ == seal_spec(password@, iv, encode_utf8("OK"@)));
        assert(lines.deep_view()[0] == token@);
    }
    Ok(lines)
}

/// What verifying a store yields: whether line 0 opens, under the key the
/// passphrase derives, to exactly the reserved marker text.
pub open spec fn verify_spec(pass: Seq<char>, lines: Seq<Seq<char>>) -> Result<bool, StoreError> {
    if pass.len() == 0 {
        Err(StoreError::KeyDerivationError)
    } else {
        Ok(
            lines.len() > 0 && open_text_spec(pass, lines[0]) == Ok::<Seq<char>, StoreError>(
                "OK"@,
            ),
        )
    }
}

/// Verify the passphrase against the store's sentinel line.  Returns true
/// exactly when line 0 decrypts to the marker; any failure to open it means
/// false, so a wrong passphrase refuses the session.  On a store this
/// passphrase created, the answer is true.
pub fn verify(password: &str, lines: &Vec<String>) -> (r: Result<bool, StoreError>)
    ensures
        r == verify_spec(password@, lines.deep_view()),
        lines.deep_view().len() > 0 && opens_to(lines.deep_view()[0], password@, "OK"@) ==> r
            == Ok::<bool, StoreError>(true),
{
    let key = match generate_key(password, 16) {
        Ok(k) => k,
        Err(e) => {
            return Err(e);
        },
    };
    if lines.len() == 0 {
        return Ok(false);
    }
    let opened = open_bytes(&key, lines[0].as_str());
    proof {
        if opens_to(lines.deep_view()[0], password@, "OK"@) {
            let iv = choose|iv: Seq<u8>|
                iv.len() == 16 && lines.deep_view()[0] == #[trigger] seal_spec(
                    password@,
                    iv,
                    encode_utf8("OK"@),
                );
        }
    }
    let payload = match opened {
        Ok(p) => p,
        Err(_) => {
            return Ok(false);
        },
    };
    match bytes_to_string(payload.as_slice()) {
        Some(text) => {
            let marker: String = "OK".to_owned();
            let same = text == marker;
            proof {
                vstd::utf8::encode_utf8_decode_utf8("OK"@);
                vstd::utf8::encode_utf8_valid_utf8("OK"@);
            }
            Ok(same)
        },
        None => {
            proof {
                vstd::utf8::encode_utf8_valid_utf8("OK"@);
            }
            Ok(false)
        },
    }
}

/// Serialize and seal a record and append its token as a new last line.
/// Never reorders or rewrites the existing lines.
pub fn add(lines: &mut Vec<String>, password: &str, record: &Record) -> (r: Result<
    (),
    StoreError,
>)
    ensures
        r is Err <==> password@.len() == 0,
        r is Err ==> r == Err::<(), StoreError>(StoreError::KeyDerivationError) && final(lines)@
            == old(lines)@,
        r is Ok ==> exists|tok: Seq<char>|
            #[trigger] token_holds(tok, password@, record@) && final(lines).deep_view() == old(
                lines,
            ).deep_view().push(tok),
{
    let key = match generate_key(password, 16) {
        Ok(k) => k,
        Err(e) => {
            return Err(e);
        },
    };
    let data = serialize_record(record);
    let token = seal_bytes(&key, data.as_slice());
    lines.push(token);
    proof {
        let iv = choose|iv: Seq<u8>|
            iv.len() == 16 && token@ == crate::outside::b64_of(
                iv + #[trigger] crate::outside::cbc_enc_of(key@, iv, data@),
            );
        assert(token@ == seal_spec(password@, iv, serialize_spec(record@)));
        assert(token_holds(token@, password@, record@));
        assert(final(lines).deep_view() =~~= old(lines).deep_view().push(token@));
    }
    Ok(())
}

/// The line segments of a stored file's text: split on the newline
/// character, scanning from `i` with the current segment open since `cur`;
/// empty segments are dropped.
pub open spec fn lines_acc(s: Seq<char>, i: int, cur: int) -> Seq<Seq<char>>
    recommends
        0 <= cur <= i <= s.len(),
    decreases s.len() - i,
        when 0 <= i <= s.len()
{
    if i >= s.len() {
        if cur == s.len() {
            Seq::empty()
        } else {
            seq![s.subrange(cur, s.len() as int)]
        }
    } else if s[i] == '\n' {
        if cur == i {
            lines_acc(s, i + 1, i + 1)
        } else {
            seq![s.subrange(cur, i)] + lines_acc(s, i + 1, i + 1)
        }
    } else {
        lines_acc(s, i + 1, cur)
    }
}

/// The non-empty lines of a stored file's text, in file order.
pub open spec fn lines_of(s: Seq<char>) -> Seq<Seq<char>> {
    lines_acc(s, 0, 0)
}

/// Split a file's text into its non-empty lines, in file order; trailing
/// and empty lines are ignored.
pub fn split_lines(content: &str) -> (r: Vec<String>)
    ensures
        r.deep_view() == lines_of(content@),
{
    let n = content.unicode_len();
    let mut out: Vec<String> = Vec::new();
    let mut i: usize = 0;
    let mut cur: usize = 0;
    while i < n
        invariant
            0 <= cur <= i <= n,
            n == content@.len(),
            out.deep_view() + lines_acc(content@, i as int, cur as int) == lines_of(content@),
        decreases n - i,
    {
        let c = content.get_char(i);
        if c == '\n' {
            if cur < i {
                let ghost prev = out.deep_view();
                let seg = content.substring_char(cur, i).to_owned();
                out.push(seg);
                proof {
                    assert(out.deep_view() =~~= prev.push(seg@));
                    assert(out.deep_view() + lines_acc(content@, i + 1, i + 1) =~~= lines_of(
                        content@,
                    ));
                }
            }
            i = i + 1;
            cur = i;
        } else {
            i = i + 1;
        }
    }
    if cur < n {
        let ghost prev = out.deep_view();
        let seg = content.substring_char(cur, n).to_owned();
        out.push(seg);
        proof {
            assert(out.deep_view() =~~= prev.push(seg@));
            assert(out.deep_view() =~~= lines_of(content@));
        }
    }
    proof {
        assert(out.deep_view() =~~= lines_of(content@));
    }
    out
}

/// The record field a list filter restricts.
#[derive(Clone, Copy, Debug, PartialEq, Eq, Structural)]
pub enum FilterField {
    Product,
    Name,
}

/// A list filter: keep the records whose selected field equals the value.
#[derive(Debug, PartialEq, Eq)]
pub struct Filter {
    pub field: FilterField,
    pub value: String,
}

/// The mathematical value of a filter.
#[verifier::ext_equal]
pub struct FilterView {
    pub field: FilterField,
    pub value: Seq<char>,
}

impl View for Filter {
    type V = FilterView;

    open spec fn view(&self) -> FilterView {
        FilterView { field: self.field, value: self.value@ }
    }
}

/// Whether a scan outcome passes the filter: a failed line is always
/// reported; a record passes when its selected field equals the value.
pub open spec fn entry_passes(e: Result<RecordView, StoreError>, fv: FilterView) -> bool {
    match e {
        Err(_) => true,
        Ok(rv) => (match fv.field {
            FilterField::Product => rv.product,
            FilterField::Name => rv.name,
        }) == fv.value,
    }
}

/// The scan outcomes a list returns: all of them, or, under a filter,
/// exactly those that pass it, in their original order.
pub open spec fn filter_spec(
    es: Seq<Result<RecordView, StoreError>>,
    f: Option<FilterView>,
) -> Seq<Result<RecordView, StoreError>> {
    match f {
        None => es,
        Some(fv) => es.filter(|e: Result<RecordView, StoreError>| entry_passes(e, fv)),
    }
}

/// Filtering one more entry keeps it exactly when it passes.
pub proof fn lemma_filter_spec_push(
    es: Seq<Result<RecordView, StoreError>>,
    e: Result<RecordView, StoreError>,
    fv: FilterView,
)
    ensures
        entry_passes(e, fv) ==> filter_spec(es.push(e), Some(fv)) == filter_spec(
            es,
            Some(fv),
        ).push(e),
        !entry_passes(e, fv) ==> filter_spec(es.push(e), Some(fv)) == filter_spec(es, Some(fv)),
{
    reveal_with_fuel(Seq::<_>::filter, 2);
    assert((es.push(e)).drop_last() =~= es);
    assert((es.push(e)).last() == e);
    assert((es.push(e)).len() == es.len() + 1);
}

/// Filter exactness: the filtered outcomes all pass the filter, and every
/// passing outcome of the scan is kept.
pub proof fn lemma_filter_exact(es: Seq<Result<RecordView, StoreError>>, fv: FilterView)
    ensures
        forall|j: int|
            0 <= j < filter_spec(es, Some(fv)).len() ==> entry_passes(
                #[trigger] filter_spec(es, Some(fv))[j],
                fv,
            ),
        forall|j: int|
            0 <= j < es.len() && entry_passes(#[trigger] es[j], fv) ==> filter_spec(
                es,
                Some(fv),
            ).contains(es[j]),
    decreases es.len(),
{
    if es.len() == 0 {
        assert(filter_spec(es, Some(fv)).len() == 0);
    } else {
        let pre = es.drop_last();
        let e = es.last();
        lemma_filter_exact(pre, fv);
        lemma_filter_spec_push(pre, e, fv);
        assert(pre.push(e) =~= es);
        let fpre = filter_spec(pre, Some(fv));
        assert forall|j: int| 0 <= j < es.len() && entry_passes(#[trigger] es[j], fv) implies
            filter_spec(es, Some(fv)).contains(es[j]) by {
            if j < pre.len() {
                assert(pre[j] == es[j]);
                assert(fpre.contains(es[j]));
                let k = choose|k: int| 0 <= k < fpre.len() && fpre[k] == es[j];
                if entry_passes(e, fv) {
                    assert(filter_spec(es, Some(fv))[k] == es[j]);
                } else {
                    assert(filter_spec(es, Some(fv))[k] == es[j]);
                }
            } else {
                assert(es[j] == e);
                assert(filter_spec(es, Some(fv)).last() == e);
            }
        }
    }
}

/// Copy one scan entry.
fn clone_entry(e: &Result<Record, StoreError>) -> (r: Result<Record, StoreError>)
    ensures
        entry_view(r) == entry_view(*e),
{
    match e {
        Ok(rec) => Ok(rec.clone()),
        Err(er) => Err(*er),
    }
}

/// Scan the store and return the outcomes, restricted by the filter where
/// one is given: a failed line is always reported, a record is kept when
/// its selected field equals the filter's value, in file order.
pub fn list(password: &str, lines: &Vec<String>, filter: &Option<Filter>) -> (r: Result<
    Vec<Result<Record, StoreError>>,
    StoreError,
>)
    ensures
        r is Err <==> password@.len() == 0,
        r is Err ==> r == Err::<Vec<Result<Record, StoreError>>, StoreError>(
            StoreError::KeyDerivationError,
        ),
        r matches Ok(es) ==> entries_view(es@) == filter_spec(
            scan_spec(password@, lines.deep_view()),
            match filter {
                Some(f) => Some(f@),
                None => None,
            },
        ),
{
    let scanned = match scan(password, lines) {
        Ok(es) => es,
        Err(e) => {
            return Err(e);
        },
    };
    match filter {
        None => Ok(scanned),
        Some(f) => {
            let ghost fv = f@;
            let mut out: Vec<Result<Record, StoreError>> = Vec::new();
            let mut i: usize = 0;
            while i < scanned.len()
                invariant
                    i <= scanned@.len(),
                    fv == f@,
                    entries_view(out@) == filter_spec(
                        entries_view(scanned@.take(i as int)),
                        Some(fv),
                    ),
                decreases scanned@.len() - i,
            {
                let keep: bool = match &scanned[i] {
                    Err(_) => true,
                    Ok(rec) => match f.field {
                        FilterField::Product => rec.product == f.value,
                        FilterField::Name => rec.name == f.value,
                    },
                };
                proof {
                    assert(keep == entry_passes(entry_view(scanned@[i as int]), fv));
                    assert(entries_view(scanned@.take(i + 1)) =~= entries_view(
                        scanned@.take(i as int),
                    ).push(entry_view(scanned@[i as int])));
                    lemma_filter_spec_push(
                        entries_view(scanned@.take(i as int)),
                        entry_view(scanned@[i as int]),
                        fv,
                    );
                }
                if keep {
                    let copied = clone_entry(&scanned[i]);
                    out.push(copied);
                    proof {
                        assert(entries_view(out@) =~= filter_spec(
                            entries_view(scanned@.take(i + 1)),
                            Some(fv),
                        ));
                    }
                }
                i = i + 1;
            }
            proof {
                assert(scanned@.take(scanned@.len() as int) =~= scanned@);
            }
            Ok(out)
        },
    }
}

/// What parsing filter words yields: no words ask for no filter; exactly a
/// known field name and a value make a filter; anything else is an input
/// error.
pub open spec fn parse_filter_spec(args: Seq<Seq<char>>) -> Result<Option<FilterView>, StoreError> {
    if args.len() == 0 {
        Ok(None)
    } else if args.len() != 2 {
        Err(StoreError::InvalidFilter)
    } else if args[0] == "product"@ {
        Ok(Some(FilterView { field: FilterField::Product, value: args[1] }))
    } else if args[0] == "name"@ {
        Ok(Some(FilterView { field: FilterField::Name, value: args[1] }))
    } else {
        Err(StoreError::InvalidFilter)
    }
}

/// The filter a result of `parse_filter` stands for.
pub open spec fn filter_result_view(r: Result<Option<Filter>, StoreError>) -> Result<
    Option<FilterView>,
    StoreError,
> {
    match r {
        Ok(Some(f)) => Ok(Some(f@)),
        Ok(None) => Ok(None),
        Err(e) => Err(e),
    }
}

/// Parse the words of a list command into a filter.
pub fn parse_filter(args: &Vec<String>) -> (r: Result<Option<Filter>, StoreError>)
    ensures
        filter_result_view(r) == parse_filter_spec(args.deep_view()),
{
    if args.len() == 0 {
        return Ok(None);
    }
    if args.len() != 2 {
        return Err(StoreError::InvalidFilter);
    }
    proof {
        assert(args.deep_view()[0] == args@[0]@);
        assert(args.deep_view()[1] == args@[1]@);
    }
    let product_label: String = "product".to_owned();
    let name_label: String = "name".to_owned();
    let value = args[1].clone();
    if args[0] == product_label {
        Ok(Some(Filter { field: FilterField::Product, value }))
    } else if args[0] == name_label {
        Ok(Some(Filter { field: FilterField::Name, value }))
    } else {
        Err(StoreError::InvalidFilter)
    }
}

/// The successfully scanned records with their entry positions, in order.
/// Positional line numbers are the only handle a record has: record `k` of
/// this sequence lives on line `goods_of(es)[k].0 + 1` of the store.
pub open spec fn goods_of(es: Seq<Result<RecordView, StoreError>>) -> Seq<(int, RecordView)>
    decreases es.len(),
{
    if es.len() == 0 {
        Seq::empty()
    } else {
        match es.last() {
            Ok(rv) => goods_of(es.drop_last()).push(((es.len() - 1) as int, rv)),
            Err(_) => goods_of(es.drop_last()),
        }
    }
}

/// One more scan outcome extends the good records exactly when it is one.
proof fn lemma_goods_push(
    es: Seq<Result<RecordView, StoreError>>,
    e: Result<RecordView, StoreError>,
)
    ensures
        e is Ok ==> goods_of(es.push(e)) == goods_of(es).push((es.len() as int, e->Ok_0)),
        e is Err ==> goods_of(es.push(e)) == goods_of(es),
{
    assert((es.push(e)).drop_last() =~= es);
    assert((es.push(e)).last() == e);
}

/// The good records index back into the scan: entry `goods_of(es)[k].0` of
/// the scan is exactly `Ok` of the record `goods_of(es)[k].1`.
pub proof fn lemma_goods_sound(es: Seq<Result<RecordView, StoreError>>)
    ensures
        forall|k: int|
            0 <= k < goods_of(es).len() ==> 0 <= (#[trigger] goods_of(es)[k]).0 < es.len()
                && es[goods_of(es)[k].0] == Ok::<RecordView, StoreError>(goods_of(es)[k].1),
    decreases es.len(),
{
    if es.len() == 0 {
    } else {
        let pre = es.drop_last();
        lemma_goods_sound(pre);
        assert forall|k: int| 0 <= k < goods_of(es).len() implies 0 <= (#[trigger] goods_of(
            es,
        )[k]).0 < es.len() && es[goods_of(es)[k].0] == Ok::<RecordView, StoreError>(
            goods_of(es)[k].1,
        ) by {
            if k < goods_of(pre).len() {
                assert(goods_of(es)[k] == goods_of(pre)[k]);
                assert(pre[goods_of(pre)[k].0] == es[goods_of(pre)[k].0]);
            } else {
                assert(es.last() is Ok);
                assert(goods_of(es)[k] == ((es.len() - 1) as int, es.last()->Ok_0));
            }
        }
    }
}

/// The record an edit stores: the fields that were given replace the old
/// ones, the fields that were not are retained from the original.
pub open spec fn updated_view(
    rv: RecordView,
    new_name: Option<Seq<char>>,
    new_secret: Option<Seq<char>>,
) -> RecordView {
    RecordView {
        product: rv.product,
        name: match new_name {
            Some(n) => n,
            None => rv.name,
        },
        secret: match new_secret {
            Some(s) => s,
            None => rv.secret,
        },
    }
}

/// The text an optional field replacement stands for.
pub open spec fn opt_text_view(o: Option<String>) -> Option<Seq<char>> {
    match o {
        Some(s) => Some(s@),
        None => None,
    }
}

/// An edit replaces the targeted fields only: a field that was given is
/// replaced by exactly its new text, a field that was not is retained
/// unchanged, and the product is always retained.
pub proof fn lemma_edit_targets_fields(
    rv: RecordView,
    new_name: Option<Seq<char>>,
    new_secret: Option<Seq<char>>,
)
    ensures
        updated_view(rv, new_name, new_secret).product == rv.product,
        new_name is None ==> updated_view(rv, new_name, new_secret).name == rv.name,
        new_name matches Some(n) ==> updated_view(rv, new_name, new_secret).name == n,
        new_secret is None ==> updated_view(rv, new_name, new_secret).secret == rv.secret,
        new_secret matches Some(s) ==> updated_view(rv, new_name, new_secret).secret == s,
{
}

/// Add then list, in order: a scan of a store holding the sentinel line and
/// the tokens of two well-formed records reports exactly those two records,
/// in insertion order.
pub proof fn lemma_add_add_list(
    pass: Seq<char>,
    sentinel_line: Seq<char>,
    t1: Seq<char>,
    t2: Seq<char>,
    r1: RecordView,
    r2: RecordView,
    esv: Seq<Result<RecordView, StoreError>>,
)
    requires
        token_holds(t1, pass, r1),
        wf_record(r1),
        token_holds(t2, pass, r2),
        wf_record(r2),
        esv.len() == 2,
        scan_honors(pass, seq![sentinel_line, t1, t2], esv),
    ensures
        esv == seq![
            Ok::<RecordView, StoreError>(r1),
            Ok::<RecordView, StoreError>(r2),
        ],
{
    let lines = seq![sentinel_line, t1, t2];
    assert(lines[1] == t1);
    assert(lines[2] == t2);
    assert(token_holds(lines[0int + 1], pass, r1));
    assert(token_holds(lines[1int + 1], pass, r2));
    assert(esv[0] == Ok::<RecordView, StoreError>(r1));
    assert(esv[1] == Ok::<RecordView, StoreError>(r2));
    assert(esv =~= seq![Ok::<RecordView, StoreError>(r1), Ok::<RecordView, StoreError>(r2)]);
}

/// Whether the collected records with their positions stand for the good
/// scan outcomes.
pub open spec fn goods_match(g: Seq<(usize, Record)>, gv: Seq<(int, RecordView)>) -> bool {
    &&& g.len() == gv.len()
    &&& forall|k: int|
        0 <= k < g.len() ==> (#[trigger] g[k]).0 as int == gv[k].0 && g[k].1@ == gv[k].1
}

/// Replace the fields of the record at `index` among the successfully
/// scanned records: append a token holding the updated record, then remove
/// the stale line by its position.  The two steps are not atomic in the
/// backing file; an interruption between them leaves both versions live.
/// An index at or beyond the record count changes nothing and fails with
/// `IndexOutOfRange`.
pub fn edit(
    password: &str,
    lines: &mut Vec<String>,
    index: usize,
    new_name: &Option<String>,
    new_secret: &Option<String>,
) -> (r: Result<(), StoreError>)
    ensures
        password@.len() == 0 ==> r == Err::<(), StoreError>(StoreError::KeyDerivationError)
            && final(lines)@ == old(lines)@,
        password@.len() > 0 && index as int >= goods_of(
            scan_spec(password@, old(lines).deep_view()),
        ).len() ==> r == Err::<(), StoreError>(StoreError::IndexOutOfRange) && final(lines)@
            == old(lines)@,
        password@.len() > 0 && (index as int) < goods_of(
            scan_spec(password@, old(lines).deep_view()),
        ).len() ==> r is Ok && ({
            let goods = goods_of(scan_spec(password@, old(lines).deep_view()));
            let pos = goods[index as int].0;
            let target = goods[index as int].1;
            exists|tok: Seq<char>|
                #[trigger] token_holds(
                    tok,
                    password@,
                    updated_view(target, opt_text_view(*new_name), opt_text_view(*new_secret)),
                ) && final(lines).deep_view() == old(lines).deep_view().push(tok).remove(pos + 1)
        }),
{
    let key = match generate_key(password, 16) {
        Ok(k) => k,
        Err(e) => {
            return Err(e);
        },
    };
    let scanned = match scan(password, lines) {
        Ok(es) => es,
        Err(e) => {
            return Err(e);
        },
    };
    let ghost es0 = scan_spec(password@, old(lines).deep_view());
    let mut goods: Vec<(usize, Record)> = Vec::new();
    let mut j: usize = 0;
    while j < scanned.len()
        invariant
            j <= scanned@.len(),
            goods_match(goods@, goods_of(entries_view(scanned@.take(j as int)))),
            forall|k: int| 0 <= k < goods@.len() ==> (#[trigger] goods@[k]).0 < j,
        decreases scanned@.len() - j,
    {
        let ghost pre = entries_view(scanned@.take(j as int));
        match &scanned[j] {
            Ok(rec) => {
                let copied = rec.clone();
                goods.push((j, copied));
            },
            Err(_) => {
            },
        }
        proof {
            assert(entries_view(scanned@.take(j + 1)) =~= pre.push(
                entry_view(scanned@[j as int]),
            ));
            lemma_goods_push(pre, entry_view(scanned@[j as int]));
        }
        j = j + 1;
    }
    proof {
        assert(scanned@.take(scanned@.len() as int) =~= scanned@);
        assert(entries_view(scanned@) == es0);
    }
    if index >= goods.len() {
        return Err(StoreError::IndexOutOfRange);
    }
    let entry_ref = &goods[index];
    let pos: usize = entry_ref.0;
    let target = &entry_ref.1;
    let updated = Record {
        product: target.product.clone(),
        name: match new_name {
            Some(n) => n.clone(),
            None => target.name.clone(),
        },
        secret: match new_secret {
            Some(s) => s.clone(),
            None => target.secret.clone(),
        },
    };
    proof {
        assert(updated@ =~= updated_view(
            goods_of(es0)[index as int].1,
            opt_text_view(*new_name),
            opt_text_view(*new_secret),
        ));
        assert(pos as int == goods_of(es0)[index as int].0);
        assert(es0.len() == scanned@.len());
        assert(lines@.len() > 0);
    }
    let data = serialize_record(&updated);
    let token = seal_bytes(&key, data.as_slice());
    lines.push(token);
    lines.remove(pos + 1);
    proof {
        let iv = choose|iv: Seq<u8>|
            iv.len() == 16 && token@ == crate::outside::b64_of(
                iv + #[trigger] crate::outside::cbc_enc_of(key@, iv, data@),
            );
        assert(token@ == seal_spec(password@, iv, serialize_spec(updated@)));
        assert(token_holds(token@, password@, updated@));
        assert(final(lines).deep_view() =~~= old(lines).deep_view().push(token@).remove(
            pos as int + 1,
        ));
    }
    Ok(())
}

} // verus!
