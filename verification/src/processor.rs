//! The operation processor: the memo of processed operations by raw query
//! text, and the steps that turn a parsed operation into its canonical form,
//! its fingerprint and its coordinates.

use vstd::prelude::*;
use crate::cache::{
    Entry, Kept, KeptView, cache_contains, cache_entries, cache_get, cache_limit, cache_new,
    cache_put, entry_from, kept_for, stored, touched,
};
use crate::ast::{Definition, DefinitionView, Document, DocumentView, OperationKind, Selection, SelectionView};
use crate::coordinates::{collect_schema_coordinates, schema_coordinates};
use crate::digest::{md5_hex, md5_hex_digest};
use crate::minify::{minified, minify};
use crate::normalize::{canonical_document, normalize_document};
use crate::schema::{Schema, SchemaView};
use crate::text::{as_set, distinct, owned, same_text, views};

verus! {

/// What processing an operation yields: the canonical text, its
/// fingerprint and the schema coordinates that the operation touches.
#[derive(Debug, PartialEq, Eq)]
pub struct ProcessedOperation {
    pub operation: String,
    pub hash: String,
    pub coordinates: Vec<String>,
}

/// The view of a processed operation.
pub struct ProcessedView {
    pub operation: Seq<char>,
    pub hash: Seq<char>,
    pub coordinates: Seq<Seq<char>>,
}

impl View for ProcessedOperation {
    type V = ProcessedView;

    open spec fn view(&self) -> ProcessedView {
        ProcessedView { operation: self.operation@, hash: self.hash@, coordinates: views(self.coordinates@) }
    }
}

/// The view of an optional processed operation.
pub open spec fn processed_view(p: Option<ProcessedOperation>) -> Option<ProcessedView> {
    match p {
        Some(p) => Some(p@),
        None => None,
    }
}

/// A kept value as a processed operation.
pub open spec fn unkept(kept: KeptView) -> Option<ProcessedView> {
    match kept {
        Some(k) => Some(ProcessedView { operation: k.0, hash: k.1, coordinates: k.2 }),
        None => None,
    }
}

/// A processed operation as a kept value.
pub open spec fn kept_of(p: Option<ProcessedView>) -> KeptView {
    match p {
        Some(p) => Some((p.operation, p.hash, p.coordinates)),
        None => None,
    }
}

/// A copy of a vector of strings.
pub fn copy_strings(v: &Vec<String>) -> (r: Vec<String>)
    ensures
        views(r@) == views(v@),
{
    let mut r: Vec<String> = Vec::new();
    let mut i: usize = 0;
    while i < v.len()
        invariant
            i <= v.len(),
            r@.len() == i,
            forall|j: int| 0 <= j < i ==> r@[j]@ == v@[j]@,
        decreases v.len() - i,
    {
        r.push(v[i].clone());
        i += 1;
    }
    assert(views(r@) =~= views(v@));
    r
}

impl ProcessedOperation {
    /// A copy of this value.
    pub fn copy(&self) -> (r: ProcessedOperation)
        ensures
            r@ == self@,
    {
        ProcessedOperation {
            operation: self.operation.clone(),
            hash: self.hash.clone(),
            coordinates: copy_strings(&self.coordinates),
        }
    }
}

/// Whether a selection is a field that asks for the schema itself.
pub open spec fn asks_for_schema(s: SelectionView) -> bool {
    s matches SelectionView::Field { name, .. } && (name == "__schema"@ || name == "__type"@)
}

/// Whether a definition is a query with a top-level field that asks for
/// the schema itself. A mutation or a subscription never is, and neither is
/// a fragment.
pub open spec fn is_introspection_query(d: DefinitionView) -> bool {
    d matches DefinitionView::Operation(op) && (op.kind == OperationKind::Query || op.kind
        == OperationKind::Shorthand) && exists|i: int|
        0 <= i < op.selection_set.len() && asks_for_schema(#[trigger] op.selection_set[i])
}

/// Whether a document holds an introspection query.
pub open spec fn is_introspection(d: DocumentView) -> bool {
    exists|i: int| 0 <= i < d.definitions.len() && is_introspection_query(#[trigger] d.definitions[i])
}

/// A parsed operation in canonical form, with the coordinates it touches.
#[derive(Debug)]
pub struct CanonicalOperation {
    pub document: Document,
    pub coordinates: Vec<String>,
}

/// The view of an owned text result.
pub open spec fn text_result(r: Result<String, String>) -> Result<Seq<char>, Seq<char>> {
    match r {
        Ok(s) => Ok(s@),
        Err(e) => Err(e@),
    }
}

/// The condition under which `r` is what a parsed operation transforms to:
/// a parse failure is passed on, an introspection query yields nothing, a
/// failure of the coordinate walk is passed on, and else the result is the
/// canonical document with the coordinates, each once.
pub open spec fn is_transformed(
    parsed: Result<Document, String>,
    schema: SchemaView,
    r: Result<Option<CanonicalOperation>, String>,
) -> bool {
    match parsed {
        Err(e) => r is Err && r->Err_0@ == e@,
        Ok(document) => if is_introspection(document@) {
            r == Ok::<Option<CanonicalOperation>, String>(None)
        } else {
            match schema_coordinates(document@, schema) {
                Err(e) => r is Err && r->Err_0@ == e,
                Ok(found) => r matches Ok(Some(c)) && c.document@ == canonical_document(document@) && distinct(
                    views(c.coordinates@),
                ) && as_set(views(c.coordinates@)) == found,
            }
        },
    }
}

/// The text that a printed document is reported as: the printed text
/// without its insignificant characters, unless printing or minifying failed.
pub open spec fn canonical_text(printed: Result<Seq<char>, Seq<char>>) -> Result<Seq<char>, Seq<char>> {
    match printed {
        Err(e) => Err(e),
        Ok(text) => minified(text),
    }
}

/// The condition under which `r` completes a canonical operation whose
/// document printed as `printed`: a failure to print or to minify is passed
/// on, and else the result holds the minified text, its fingerprint and the
/// coordinates.
pub open spec fn is_completed(
    coordinates: Seq<Seq<char>>,
    printed: Result<Seq<char>, Seq<char>>,
    r: Result<ProcessedOperation, String>,
) -> bool {
    match canonical_text(printed) {
        Err(e) => r is Err && r->Err_0@ == e,
        Ok(text) => r matches Ok(p) && p@ == (ProcessedView {
            operation: text,
            hash: md5_hex(text),
            coordinates,
        }),
    }
}

/// What processing yields, as a view.
pub type OutcomeView = Result<Option<ProcessedView>, Seq<char>>;

/// The view of what processing yielded.
pub open spec fn outcome_view(r: Result<Option<ProcessedOperation>, String>) -> OutcomeView {
    match r {
        Ok(v) => Ok(processed_view(v)),
        Err(e) => Err(e@),
    }
}

/// The outcome of processing an operation that transformed to `staged` and
/// whose canonical document, if it came to that, printed as `printed`: a
/// failure of any step is passed on, an operation that is not reported
/// yields nothing, and else the outcome holds the minified text, its
/// fingerprint and the coordinates.
pub open spec fn results_in(
    staged: Result<Option<CanonicalOperation>, String>,
    printed: Result<String, String>,
    v: OutcomeView,
) -> bool {
    match staged {
        Err(e) => v == Err::<Option<ProcessedView>, Seq<char>>(e@),
        Ok(None) => v == Ok::<Option<ProcessedView>, Seq<char>>(None),
        Ok(Some(c)) => match canonical_text(text_result(printed)) {
            Err(e) => v == Err::<Option<ProcessedView>, Seq<char>>(e),
            Ok(text) => v == Ok::<Option<ProcessedView>, Seq<char>>(
                Some(ProcessedView { operation: text, hash: md5_hex(text), coordinates: views(c.coordinates@) }),
            ),
        },
    }
}

/// One run of the steps of processing: `parse` gave `parsed` for the query,
/// that transformed to `staged` under the schema, and `print`, if it was
/// called, gave `printed` for the canonical document.
pub open spec fn attempt<P, Q>(
    parse: P,
    print: Q,
    schema: SchemaView,
    query: &str,
    parsed: Result<Document, String>,
    staged: Result<Option<CanonicalOperation>, String>,
    printed: Result<String, String>,
) -> bool where P: Fn(&str) -> Result<Document, String>, Q: Fn(&Document) -> Result<String, String> {
    call_ensures(parse, (query,), parsed) && is_transformed(parsed, schema, staged) && (staged matches Ok(Some(c))
        ==> call_ensures(print, (&c.document,), printed))
}

/// `v` is an outcome that processing the query afresh may have, with
/// `parse` and `print` doing what is left to them.
pub open spec fn yields<P, Q>(parse: P, print: Q, schema: SchemaView, query: Seq<char>, v: OutcomeView) -> bool where
    P: Fn(&str) -> Result<Document, String>,
    Q: Fn(&Document) -> Result<String, String>,
 {
    exists|
        q: &str,
        parsed: Result<Document, String>,
        staged: Result<Option<CanonicalOperation>, String>,
        printed: Result<String, String>,
    |
        #[trigger] attempt(parse, print, schema, q, parsed, staged, printed) && q@ == query && results_in(
            staged,
            printed,
            v,
        )
}

/// Every entry holds an outcome that processing its query afresh may have.
pub open spec fn coherent<P, Q>(entries: Seq<Entry>, parse: P, print: Q, schema: SchemaView) -> bool where
    P: Fn(&str) -> Result<Document, String>,
    Q: Fn(&Document) -> Result<String, String>,
 {
    forall|i: int|
        0 <= i < entries.len() ==> yields(
            parse,
            print,
            schema,
            (#[trigger] entries[i]).0,
            Ok::<Option<ProcessedView>, Seq<char>>(unkept(entries[i].1)),
        )
}

/// `parse` gives like results for like texts.
pub open spec fn parses_alike<P>(parse: P) -> bool where P: Fn(&str) -> Result<Document, String> {
    forall|a: &str, b: &str, x: Result<Document, String>, y: Result<Document, String>|
        a@ == b@ && #[trigger] call_ensures(parse, (a,), x) && #[trigger] call_ensures(parse, (b,), y) ==> match x {
            Ok(d) => y is Ok && y->Ok_0@ == d@,
            Err(e) => y is Err && y->Err_0@ == e@,
        }
}

/// `print` gives like results for like documents.
pub open spec fn prints_alike<Q>(print: Q) -> bool where Q: Fn(&Document) -> Result<String, String> {
    forall|a: &Document, b: &Document, x: Result<String, String>, y: Result<String, String>|
        a@ == b@ && #[trigger] call_ensures(print, (a,), x) && #[trigger] call_ensures(print, (b,), y)
            ==> text_result(x) == text_result(y)
}

/// Two outcomes are structurally equal: the same failure, or both nothing,
/// or the same canonical text, the same fingerprint and the same set of
/// coordinates.
pub open spec fn alike(a: OutcomeView, b: OutcomeView) -> bool {
    match a {
        Err(e) => b == Err::<Option<ProcessedView>, Seq<char>>(e),
        Ok(None) => b == Ok::<Option<ProcessedView>, Seq<char>>(None),
        Ok(Some(p)) => b matches Ok(Some(q)) && p.operation == q.operation && p.hash == q.hash && as_set(
            p.coordinates,
        ) == as_set(q.coordinates),
    }
}

/// The position of an entry for `key`, where there is one.
pub proof fn lemma_entry_from(entries: Seq<Entry>, key: Seq<char>, from: int)
    requires
        0 <= from,
    ensures
        match entry_from(entries, key, from) {
            Some(i) => from <= i < entries.len() && entries[i].0 == key,
            None => forall|i: int| from <= i < entries.len() ==> (#[trigger] entries[i]).0 != key,
        },
    decreases entries.len() - from,
{
    if from < entries.len() && entries[from].0 != key {
        lemma_entry_from(entries, key, from + 1);
    }
}

/// Using an entry keeps the memo coherent.
pub proof fn lemma_touched_is_coherent<P, Q>(
    entries: Seq<Entry>,
    key: Seq<char>,
    parse: P,
    print: Q,
    schema: SchemaView,
) where P: Fn(&str) -> Result<Document, String>, Q: Fn(&Document) -> Result<String, String>
    requires
        coherent(entries, parse, print, schema),
    ensures
        coherent(touched(entries, key), parse, print, schema),
{
    lemma_entry_from(entries, key, 0);
    let after = touched(entries, key);
    match entry_from(entries, key, 0) {
        Some(i) => {
            assert forall|k: int| 0 <= k < after.len() implies yields(
                parse,
                print,
                schema,
                (#[trigger] after[k]).0,
                Ok::<Option<ProcessedView>, Seq<char>>(unkept(after[k].1)),
            ) by {
                if k == 0 {
                    assert(after[k] == entries[i]);
                } else if k <= i {
                    assert(after[k] == entries[k - 1]);
                } else {
                    assert(after[k] == entries[k]);
                }
            }
        },
        None => {},
    }
}

/// Storing an outcome that processing the query afresh may have keeps the
/// memo coherent.
pub proof fn lemma_stored_is_coherent<P, Q>(
    entries: Seq<Entry>,
    limit: nat,
    key: Seq<char>,
    value: KeptView,
    parse: P,
    print: Q,
    schema: SchemaView,
) where P: Fn(&str) -> Result<Document, String>, Q: Fn(&Document) -> Result<String, String>
    requires
        limit > 0,
        coherent(entries, parse, print, schema),
        yields(parse, print, schema, key, Ok::<Option<ProcessedView>, Seq<char>>(unkept(value))),
    ensures
        coherent(stored(entries, limit, key, value), parse, print, schema),
{
    lemma_entry_from(entries, key, 0);
    let after = stored(entries, limit, key, value);
    assert forall|k: int| 0 <= k < after.len() implies yields(
        parse,
        print,
        schema,
        (#[trigger] after[k]).0,
        Ok::<Option<ProcessedView>, Seq<char>>(unkept(after[k].1)),
    ) by {
        if k == 0 {
            assert(after[k] == (key, value));
        } else {
            match entry_from(entries, key, 0) {
                Some(i) => {
                    if k <= i {
                        assert(after[k] == entries[k - 1]);
                    } else {
                        assert(after[k] == entries[k]);
                    }
                },
                None => {
                    assert(after[k] == entries[k - 1]);
                },
            }
        }
    }
}

/// What is stored for a query is what is kept for it afterwards.
pub proof fn lemma_stored_is_kept(entries: Seq<Entry>, limit: nat, key: Seq<char>, value: KeptView)
    ensures
        kept_for(stored(entries, limit, key, value), key) == Some(value),
{
    let after = stored(entries, limit, key, value);
    assert(after[0] == (key, value));
}

/// Processing is repeatable: where `parse` and `print` give like results
/// for like arguments, any two outcomes that processing a query afresh may
/// have are structurally equal. With a coherent memo this holds of every
/// two results of processing the same query.
pub proof fn lemma_processing_is_repeatable<P, Q>(
    parse: P,
    print: Q,
    schema: SchemaView,
    query: Seq<char>,
    a: OutcomeView,
    b: OutcomeView,
) where P: Fn(&str) -> Result<Document, String>, Q: Fn(&Document) -> Result<String, String>
    requires
        parses_alike(parse),
        prints_alike(print),
        yields(parse, print, schema, query, a),
        yields(parse, print, schema, query, b),
    ensures
        alike(a, b),
{
    let (q1, parsed1, staged1, printed1) = choose|
        q: &str,
        parsed: Result<Document, String>,
        staged: Result<Option<CanonicalOperation>, String>,
        printed: Result<String, String>,
    |
        #[trigger] attempt(parse, print, schema, q, parsed, staged, printed) && q@ == query && results_in(
            staged,
            printed,
            a,
        );
    let (q2, parsed2, staged2, printed2) = choose|
        q: &str,
        parsed: Result<Document, String>,
        staged: Result<Option<CanonicalOperation>, String>,
        printed: Result<String, String>,
    |
        #[trigger] attempt(parse, print, schema, q, parsed, staged, printed) && q@ == query && results_in(
            staged,
            printed,
            b,
        );
    assert(call_ensures(parse, (q1,), parsed1) && call_ensures(parse, (q2,), parsed2));
    match (staged1, staged2) {
        (Ok(Some(c1)), Ok(Some(c2))) => {
            assert(c1.document@ == c2.document@);
            assert(call_ensures(print, (&c1.document,), printed1) && call_ensures(print, (&c2.document,), printed2));
            assert(text_result(printed1) == text_result(printed2));
        },
        _ => {},
    }
}

/// Processing is repeatable without the memo too: whatever a parsed
/// operation transforms to under a schema, it transforms to the same again.
/// Two results are both failures with the same text, or both nothing, or
/// hold the same canonical document and the same set of coordinates.
pub proof fn lemma_transform_is_determined(
    parsed: Result<Document, String>,
    schema: SchemaView,
    a: Result<Option<CanonicalOperation>, String>,
    b: Result<Option<CanonicalOperation>, String>,
)
    requires
        is_transformed(parsed, schema, a),
        is_transformed(parsed, schema, b),
    ensures
        match a {
            Err(e) => b is Err && b->Err_0@ == e@,
            Ok(None) => b == Ok::<Option<CanonicalOperation>, String>(None),
            Ok(Some(c)) => b matches Ok(Some(d)) && c.document@ == d.document@ && as_set(views(c.coordinates@))
                == as_set(views(d.coordinates@)),
        },
{
}

/// Operations with equal canonical texts have equal fingerprints.
pub proof fn lemma_equal_texts_have_equal_fingerprints(
    first: Seq<Seq<char>>,
    second: Seq<Seq<char>>,
    printed_first: Result<Seq<char>, Seq<char>>,
    printed_second: Result<Seq<char>, Seq<char>>,
    a: Result<ProcessedOperation, String>,
    b: Result<ProcessedOperation, String>,
)
    requires
        is_completed(first, printed_first, a),
        is_completed(second, printed_second, b),
        a is Ok,
        b is Ok,
        a->Ok_0.operation@ == b->Ok_0.operation@,
    ensures
        a->Ok_0.hash@ == b->Ok_0.hash@,
{
}

/// An introspection query transforms to nothing, whatever the schema is.
pub proof fn lemma_introspection_yields_nothing(
    document: Document,
    schema: SchemaView,
    r: Result<Option<CanonicalOperation>, String>,
)
    requires
        is_introspection(document@),
        is_transformed(Ok(document), schema, r),
    ensures
        r == Ok::<Option<CanonicalOperation>, String>(None),
{
}

/// Whether a selection is a field that asks for the schema itself.
pub fn selection_asks_for_schema(selection: &Selection) -> (r: bool)
    ensures
        r == asks_for_schema(selection@),
{
    match selection {
        Selection::Field { name, .. } => same_text(name.as_str(), "__schema") || same_text(name.as_str(), "__type"),
        _ => false,
    }
}

/// Whether a document holds an introspection query.
pub fn detect_introspection(document: &Document) -> (r: bool)
    ensures
        r == is_introspection(document@),
{
    let mut i: usize = 0;
    while i < document.definitions.len()
        invariant
            i <= document.definitions.len(),
            forall|k: int| 0 <= k < i ==> !is_introspection_query(#[trigger] document@.definitions[k]),
        decreases document.definitions.len() - i,
    {
        match &document.definitions[i] {
            Definition::Operation(op) => {
                let is_query = match op.kind {
                    OperationKind::Query | OperationKind::Shorthand => true,
                    _ => false,
                };
                if is_query {
                    let mut j: usize = 0;
                    while j < op.selection_set.len()
                        invariant
                            j <= op.selection_set.len(),
                            i < document.definitions.len(),
                            document@.definitions[i as int] == DefinitionView::Operation(op@),
                            op.kind == OperationKind::Query || op.kind == OperationKind::Shorthand,
                            forall|k: int| 0 <= k < j ==> !asks_for_schema(#[trigger] op@.selection_set[k]),
                        decreases op.selection_set.len() - j,
                    {
                        if selection_asks_for_schema(&op.selection_set[j]) {
                            assert(asks_for_schema(op@.selection_set[j as int]));
                            assert(is_introspection_query(document@.definitions[i as int]));
                            return true;
                        }
                        j += 1;
                    }
                }
            },
            Definition::Fragment(_) => {},
        }
        i += 1;
    }
    false
}

/// The number of raw queries that the processor remembers at most.
pub const CACHE_CAPACITY: usize = 1000;

/// The processor. It remembers, for the raw queries used most recently,
/// what processing them yielded.
pub struct OperationProcessor {
    cache: lru::LruCache<String, Kept>,
}

impl OperationProcessor {
    /// The remembered entries, the most recently used first.
    pub closed spec fn entries(&self) -> Seq<Entry> {
        cache_entries(self.cache)
    }

    /// The processor remembers at most `CACHE_CAPACITY` raw queries.
    pub closed spec fn wf(&self) -> bool {
        cache_limit(self.cache) == CACHE_CAPACITY
    }

    /// What is remembered for `query`, if anything is.
    pub open spec fn remembered(&self, query: Seq<char>) -> Option<Option<ProcessedView>> {
        match kept_for(self.entries(), query) {
            Some(k) => Some(unkept(k)),
            None => None,
        }
    }

    /// A processor that remembers nothing yet.
    pub fn new() -> (r: OperationProcessor)
        ensures
            r.wf(),
            r.entries() == Seq::<Entry>::empty(),
    {
        OperationProcessor { cache: cache_new(CACHE_CAPACITY) }
    }

    /// What is remembered for `query`. A query that is found becomes the
    /// most recently used.
    pub fn lookup(&mut self, query: &str) -> (r: Option<Option<ProcessedOperation>>)
        requires
            old(self).wf(),
        ensures
            final(self).wf(),
            match r {
                Some(hit) => old(self).remembered(query@) == Some(processed_view(hit)),
                None => old(self).remembered(query@) is None,
            },
            final(self).entries() == touched(old(self).entries(), query@),
    {
        let key = owned(query);
        if cache_contains(&self.cache, &key) {
            match cache_get(&mut self.cache, &key) {
                Some(kept) => match kept {
                    Some(k) => {
                        let p = ProcessedOperation { operation: k.0, hash: k.1, coordinates: k.2 };
                        assert(p@.coordinates =~= k.2@.map_values(|s: String| s@));
                        Some(Some(p))
                    },
                    None => Some(None),
                },
                None => None,
            }
        } else {
            None
        }
    }

    /// Remembers `result` for `query` as the most recently used entry. Where
    /// the processor is full and does not know the query, it forgets the
    /// least recently used one.
    pub fn remember(&mut self, query: &str, result: &Option<ProcessedOperation>)
        requires
            old(self).wf(),
        ensures
            final(self).wf(),
            final(self).entries() == stored(
                old(self).entries(),
                CACHE_CAPACITY as nat,
                query@,
                kept_of(processed_view(*result)),
            ),
    {
        let kept: Kept = match result {
            Some(p) => {
                let c = copy_strings(&p.coordinates);
                assert(c@.map_values(|s: String| s@) =~= views(p.coordinates@));
                Some((p.operation.clone(), p.hash.clone(), c))
            },
            None => None,
        };
        cache_put(&mut self.cache, owned(query), kept);
    }

    /// Turns a parsed operation into its canonical form and collects its
    /// coordinates, as `is_transformed` says.
    pub fn transform(parsed: Result<Document, String>, schema: &Schema) -> (r: Result<
        Option<CanonicalOperation>,
        String,
    >)
        ensures
            is_transformed(parsed, schema@, r),
    {
        match parsed {
            Err(e) => Err(e),
            Ok(document) => {
                if detect_introspection(&document) {
                    return Ok(None);
                }
                match collect_schema_coordinates(&document, schema) {
                    Err(e) => Err(e),
                    Ok(coordinates) => Ok(
                        Some(CanonicalOperation { document: normalize_document(&document), coordinates }),
                    ),
                }
            },
        }
    }

    /// Completes a canonical operation with the text that its document was
    /// printed as, as `is_completed` says.
    pub fn complete(canonical: CanonicalOperation, printed: Result<String, String>) -> (r: Result<
        ProcessedOperation,
        String,
    >)
        ensures
            is_completed(views(canonical.coordinates@), text_result(printed), r),
    {
        match printed {
            Err(e) => Err(e),
            Ok(pretty) => match minify(pretty) {
                Err(e) => Err(e),
                Ok(text) => {
                    let hash = OperationProcessor::fingerprint(text.as_str());
                    Ok(ProcessedOperation { operation: text, hash, coordinates: canonical.coordinates })
                },
            },
        }
    }

    /// Processes a raw query. What is remembered for the query is returned
    /// as it is. Otherwise the query is parsed by `parse`, transformed, and
    /// its canonical document printed by `print` and minified; the result is
    /// remembered
    /// unless it is a failure. Either way the result is an outcome that
    /// processing the query afresh may have.
    pub fn process<P, Q>(&mut self, query: &str, schema: &Schema, parse: &P, print: &Q) -> (r: Result<
        Option<ProcessedOperation>,
        String,
    >) where P: Fn(&str) -> Result<Document, String>, Q: Fn(&Document) -> Result<String, String>
        requires
            old(self).wf(),
            coherent(old(self).entries(), *parse, *print, schema@),
            forall|q: &str| call_requires(*parse, (q,)),
            forall|d: &Document| call_requires(*print, (d,)),
        ensures
            final(self).wf(),
            coherent(final(self).entries(), *parse, *print, schema@),
            yields(*parse, *print, schema@, query@, outcome_view(r)),
            match old(self).remembered(query@) {
                Some(hit) => outcome_view(r) == Ok::<Option<ProcessedView>, Seq<char>>(hit) && final(self).entries()
                    == touched(old(self).entries(), query@),
                None => final(self).entries() == match r {
                    Ok(v) => stored(old(self).entries(), CACHE_CAPACITY as nat, query@, kept_of(processed_view(v))),
                    Err(_) => old(self).entries(),
                },
            },
    {
        let ghost before = self.entries();
        proof {
            lemma_entry_from(before, query@, 0);
            lemma_touched_is_coherent(before, query@, *parse, *print, schema@);
        }
        match self.lookup(query) {
            Some(hit) => Ok(hit),
            None => {
                let parsed = parse(query);
                let ghost parsed_was = parsed;
                let staged = OperationProcessor::transform(parsed, schema);
                let ghost staged_was = staged;
                match staged {
                    Err(e) => {
                        let r = Err(e);
                        assert(attempt(*parse, *print, schema@, query, parsed_was, staged_was, arbitrary()));
                        r
                    },
                    Ok(None) => {
                        let r: Result<Option<ProcessedOperation>, String> = Ok(None);
                        proof {
                            assert(attempt(*parse, *print, schema@, query, parsed_was, staged_was, arbitrary()));
                            lemma_stored_is_coherent(
                                before,
                                CACHE_CAPACITY as nat,
                                query@,
                                None,
                                *parse,
                                *print,
                                schema@,
                            );
                        }
                        self.remember(query, &None);
                        r
                    },
                    Ok(Some(c)) => {
                        let printed = print(&c.document);
                        let ghost printed_was = printed;
                        assert(attempt(*parse, *print, schema@, query, parsed_was, staged_was, printed_was));
                        match OperationProcessor::complete(c, printed) {
                            Err(e) => Err(e),
                            Ok(p) => {
                                let result = Some(p);
                                proof {
                                    lemma_stored_is_coherent(
                                        before,
                                        CACHE_CAPACITY as nat,
                                        query@,
                                        kept_of(processed_view(result)),
                                        *parse,
                                        *print,
                                        schema@,
                                    );
                                }
                                self.remember(query, &result);
                                Ok(result)
                            },
                        }
                    },
                }
            },
        }
    }

    /// The fingerprint of a canonical text: its MD5 digest in lowercase
    /// hexadecimal.
    pub fn fingerprint(canonical: &str) -> (r: String)
        ensures
            r@ == md5_hex(canonical@),
            r@.len() == 32,
            forall|i: int| 0 <= i < r@.len() ==> crate::digest::is_lower_hex(#[trigger] r@[i]),
    {
        md5_hex_digest(canonical)
    }
}

} // verus!
