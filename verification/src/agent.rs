//! The usage agent: the buffer of execution records, the assembly of a
//! report from drained records, and the decisions taken while a report is
//! sent. Timers, tasks and the HTTP exchange itself belong to the caller.

use std::collections::VecDeque;
use vstd::prelude::*;
use vstd::string::*;
use crate::ast::Document;
use crate::processor::{OperationProcessor, ProcessedOperation, ProcessedView, coherent, outcome_view, yields};
use crate::schema::Schema;
use crate::text::{decimal_digits, decimal_text, owned, prefixed, views};

verus! {

/// One observed execution of an operation. `duration` is in nanoseconds,
/// `timestamp` in milliseconds since the epoch.
#[derive(Debug)]
pub struct ExecutionReport {
    pub client_name: Option<String>,
    pub client_version: Option<String>,
    pub timestamp: u64,
    pub duration: u128,
    pub ok: bool,
    pub errors: usize,
    pub operation_body: String,
    pub operation_name: Option<String>,
}

/// What a report says of one distinct operation.
#[derive(Debug)]
pub struct OperationMapRecord {
    pub operation: String,
    pub operation_name: Option<String>,
    pub fields: Vec<String>,
}

/// How one execution went.
#[derive(Debug)]
pub struct Execution {
    pub ok: bool,
    pub duration: u128,
    pub errors_total: usize,
}

/// The client that sent an operation.
#[derive(Debug)]
pub struct ClientInfo {
    pub name: Option<String>,
    pub version: Option<String>,
}

/// What a report says of one execution.
#[derive(Debug)]
pub struct Operation {
    pub operation_map_key: String,
    pub timestamp: u64,
    pub execution: Execution,
    pub client: ClientInfo,
}

/// An entry of the map of a report.
#[derive(Debug)]
pub struct MapEntry {
    pub key: String,
    pub record: OperationMapRecord,
}

/// A usage report. `map` holds one entry for each distinct fingerprint among
/// `operations`, in the order in which the fingerprints first occur.
#[derive(Debug)]
pub struct Report {
    pub size: usize,
    pub map: Vec<MapEntry>,
    pub operations: Vec<Operation>,
}

/// The view of what a report says of one distinct operation.
pub struct RecordView {
    pub operation: Seq<char>,
    pub operation_name: Option<Seq<char>>,
    pub fields: Seq<Seq<char>>,
}

/// The view of what a report says of one execution, with every field at the top.
pub struct OperationView {
    pub operation_map_key: Seq<char>,
    pub timestamp: int,
    pub ok: bool,
    pub duration: int,
    pub errors_total: int,
    pub client_name: Option<Seq<char>>,
    pub client_version: Option<Seq<char>>,
}

/// The view of a map entry.
pub struct MapEntryView {
    pub key: Seq<char>,
    pub record: RecordView,
}

/// The view of a report.
pub struct ReportView {
    pub size: int,
    pub map: Seq<MapEntryView>,
    pub operations: Seq<OperationView>,
}

/// The view of an execution record.
pub struct ExecutionView {
    pub client_name: Option<Seq<char>>,
    pub client_version: Option<Seq<char>>,
    pub timestamp: int,
    pub duration: int,
    pub ok: bool,
    pub errors: int,
    pub operation_body: Seq<char>,
    pub operation_name: Option<Seq<char>>,
}

/// The view of an optional string.
pub open spec fn text_view(o: Option<String>) -> Option<Seq<char>> {
    match o {
        Some(s) => Some(s@),
        None => None,
    }
}

impl View for ExecutionReport {
    type V = ExecutionView;

    open spec fn view(&self) -> ExecutionView {
        ExecutionView {
            client_name: text_view(self.client_name),
            client_version: text_view(self.client_version),
            timestamp: self.timestamp as int,
            duration: self.duration as int,
            ok: self.ok,
            errors: self.errors as int,
            operation_body: self.operation_body@,
            operation_name: text_view(self.operation_name),
        }
    }
}

impl View for OperationMapRecord {
    type V = RecordView;

    open spec fn view(&self) -> RecordView {
        RecordView {
            operation: self.operation@,
            operation_name: text_view(self.operation_name),
            fields: views(self.fields@),
        }
    }
}

impl View for Operation {
    type V = OperationView;

    open spec fn view(&self) -> OperationView {
        OperationView {
            operation_map_key: self.operation_map_key@,
            timestamp: self.timestamp as int,
            ok: self.execution.ok,
            duration: self.execution.duration as int,
            errors_total: self.execution.errors_total as int,
            client_name: text_view(self.client.name),
            client_version: text_view(self.client.version),
        }
    }
}

impl View for MapEntry {
    type V = MapEntryView;

    open spec fn view(&self) -> MapEntryView {
        MapEntryView { key: self.key@, record: self.record@ }
    }
}

impl View for Report {
    type V = ReportView;

    open spec fn view(&self) -> ReportView {
        ReportView { size: self.size as int, map: views(self.map@), operations: views(self.operations@) }
    }
}

/// An optional text with the empty text taken for absent.
pub open spec fn non_empty(o: Option<Seq<char>>) -> Option<Seq<char>> {
    match o {
        Some(s) => if s.len() == 0 {
            None
        } else {
            Some(s)
        },
        None => None,
    }
}

/// `value`, unless it is empty: an empty string counts as absent.
pub fn non_empty_string(value: Option<String>) -> (r: Option<String>)
    ensures
        text_view(r) == non_empty(text_view(value)),
{
    match value {
        Some(value) => {
            if value.as_str().unicode_len() == 0 {
                None
            } else {
                Some(value)
            }
        },
        None => None,
    }
}

/// What became of processing the operation of one record: a failure, an
/// operation that is not reported, or a processed operation.
pub type Outcome = Result<Option<ProcessedOperation>, String>;

/// The processed operation of an outcome, if it has one.
pub open spec fn reported(outcome: Outcome) -> Option<ProcessedView> {
    match outcome {
        Ok(Some(p)) => Some(p@),
        _ => None,
    }
}

/// Whether the map holds an entry for `key`.
pub open spec fn has_key(map: Seq<MapEntryView>, key: Seq<char>) -> bool {
    exists|i: int| 0 <= i < map.len() && (#[trigger] map[i]).key == key
}

/// The entry of a report for one execution of the operation `key`.
pub open spec fn operation_entry(op: ExecutionView, key: Seq<char>) -> OperationView {
    OperationView {
        operation_map_key: key,
        timestamp: op.timestamp,
        ok: op.ok,
        duration: op.duration,
        errors_total: op.errors,
        client_name: non_empty(op.client_name),
        client_version: non_empty(op.client_version),
    }
}

/// The map entry that the first execution of a processed operation brings.
pub open spec fn map_entry(op: ExecutionView, p: ProcessedView) -> MapEntryView {
    MapEntryView {
        key: p.hash,
        record: RecordView {
            operation: p.operation,
            operation_name: non_empty(op.operation_name),
            fields: p.coordinates,
        },
    }
}

/// A report with one more record taken in. A record whose operation failed
/// to process or is not reported leaves the report as it is.
pub open spec fn with_record(report: ReportView, op: ExecutionView, processed: Option<ProcessedView>) -> ReportView {
    match processed {
        Some(p) => ReportView {
            size: report.size + 1,
            map: if has_key(report.map, p.hash) {
                report.map
            } else {
                report.map.push(map_entry(op, p))
            },
            operations: report.operations.push(operation_entry(op, p.hash)),
        },
        None => report,
    }
}

/// The report with no record in it.
pub open spec fn empty_report() -> ReportView {
    ReportView { size: 0, map: Seq::empty(), operations: Seq::empty() }
}

/// The report assembled from the first `n` records and their outcomes.
pub open spec fn assembled(reports: Seq<ExecutionReport>, outcomes: Seq<Outcome>, n: int) -> ReportView
    decreases n,
{
    if n <= 0 || n > reports.len() || n > outcomes.len() {
        empty_report()
    } else {
        with_record(assembled(reports, outcomes, n - 1), reports[n - 1]@, reported(outcomes[n - 1]))
    }
}

/// A report is well formed when its size is the number of its operations,
/// no fingerprint has two map entries, every operation refers to a map
/// entry, and no client or operation name in it is empty.
pub open spec fn well_formed(report: ReportView) -> bool {
    &&& report.size == report.operations.len()
    &&& forall|i: int, j: int| 0 <= i < j < report.map.len() ==> report.map[i].key != report.map[j].key
    &&& forall|i: int| 0 <= i < report.operations.len() ==> has_key(report.map, (#[trigger] report.operations[i]).operation_map_key)
    &&& forall|i: int|
        0 <= i < report.operations.len() ==> (#[trigger] report.operations[i]).client_name != Some(Seq::<char>::empty())
            && report.operations[i].client_version != Some(Seq::<char>::empty())
    &&& forall|i: int| 0 <= i < report.map.len() ==> (#[trigger] report.map[i]).record.operation_name != Some(Seq::<char>::empty())
}

/// Taking a record into a well-formed report leaves it well formed.
pub proof fn lemma_with_record_well_formed(report: ReportView, op: ExecutionView, processed: Option<ProcessedView>)
    requires
        well_formed(report),
    ensures
        well_formed(with_record(report, op, processed)),
{
    let next = with_record(report, op, processed);
    match processed {
        Some(p) => {
            assert forall|i: int| 0 <= i < next.operations.len() implies has_key(
                next.map,
                (#[trigger] next.operations[i]).operation_map_key,
            ) by {
                let key = next.operations[i].operation_map_key;
                if i < report.operations.len() {
                    assert(next.operations[i] == report.operations[i]);
                    let j = choose|j: int| 0 <= j < report.map.len() && (#[trigger] report.map[j]).key == key;
                    assert(next.map[j].key == key);
                } else {
                    if has_key(report.map, p.hash) {
                        let j = choose|j: int| 0 <= j < report.map.len() && (#[trigger] report.map[j]).key == p.hash;
                        assert(next.map[j].key == key);
                    } else {
                        assert(next.map[report.map.len() as int].key == key);
                    }
                }
            }
        },
        None => {},
    }
}

/// Every assembled report is well formed.
pub proof fn lemma_assembled_well_formed(reports: Seq<ExecutionReport>, outcomes: Seq<Outcome>, n: int)
    ensures
        well_formed(assembled(reports, outcomes, n)),
    decreases n,
{
    if n <= 0 || n > reports.len() || n > outcomes.len() {
    } else {
        lemma_assembled_well_formed(reports, outcomes, n - 1);
        lemma_with_record_well_formed(
            assembled(reports, outcomes, n - 1),
            reports[n - 1]@,
            reported(outcomes[n - 1]),
        );
    }
}

/// Records whose operations are not reported, as introspection operations
/// are not, add nothing to a report.
pub proof fn lemma_unreported_adds_nothing(reports: Seq<ExecutionReport>, outcomes: Seq<Outcome>, n: int)
    requires
        0 <= n <= reports.len(),
        n <= outcomes.len(),
        forall|i: int| 0 <= i < n ==> reported(#[trigger] outcomes[i]) is None,
    ensures
        assembled(reports, outcomes, n) == empty_report(),
    decreases n,
{
    if n > 0 {
        lemma_unreported_adds_nothing(reports, outcomes, n - 1);
    }
}

impl Report {
    /// A report with no record in it.
    pub fn new() -> (r: Report)
        ensures
            r@ == empty_report(),
    {
        let r = Report { size: 0, map: Vec::new(), operations: Vec::new() };
        assert(r@.map =~= Seq::<MapEntryView>::empty());
        assert(r@.operations =~= Seq::<OperationView>::empty());
        r
    }

    /// Whether the map holds an entry for `key`.
    pub fn contains_key(&self, key: &String) -> (r: bool)
        ensures
            r == has_key(self@.map, key@),
    {
        let mut i: usize = 0;
        while i < self.map.len()
            invariant
                i <= self.map.len(),
                forall|j: int| 0 <= j < i ==> (#[trigger] self@.map[j]).key != key@,
            decreases self.map.len() - i,
        {
            if self.map[i].key == *key {
                assert(self@.map[i as int].key == key@);
                return true;
            }
            i += 1;
        }
        false
    }

    /// Takes one record and the outcome of processing its operation into
    /// the report.
    pub fn record(&mut self, op: ExecutionReport, outcome: Outcome)
        requires
            old(self)@.size == old(self)@.operations.len(),
        ensures
            final(self)@ == with_record(old(self)@, op@, reported(outcome)),
            final(self)@.size == final(self)@.operations.len(),
    {
        let ghost before = self@;
        match outcome {
            Ok(Some(p)) => {
                let ghost pv = p@;
                let hash = p.hash;
                self.operations.push(
                    Operation {
                        operation_map_key: hash.clone(),
                        timestamp: op.timestamp,
                        execution: Execution { ok: op.ok, duration: op.duration, errors_total: op.errors },
                        client: ClientInfo {
                            name: non_empty_string(op.client_name),
                            version: non_empty_string(op.client_version),
                        },
                    },
                );
                assert(self@.operations =~= before.operations.push(operation_entry(op@, pv.hash)));
                assert(self@.map == before.map);
                if !self.contains_key(&hash) {
                    self.map.push(
                        MapEntry {
                            key: hash,
                            record: OperationMapRecord {
                                operation: p.operation,
                                operation_name: non_empty_string(op.operation_name),
                                fields: p.coordinates,
                            },
                        },
                    );
                    assert(self@.map =~= before.map.push(map_entry(op@, pv)));
                }
                assert(self.operations.len() <= usize::MAX);
                self.size = self.size + 1;
            },
            _ => {},
        }
    }
}

/// The buffer of records that wait for the next report, in the order in
/// which they came, and the schema that their operations are read against.
#[derive(Debug)]
pub struct State {
    pub buffer: VecDeque<ExecutionReport>,
    pub schema: Schema,
}

impl State {
    /// A state with an empty buffer.
    pub fn new(schema: Schema) -> (r: State)
        ensures
            r.buffer@ == Seq::<ExecutionReport>::empty(),
            r.schema == schema,
    {
        State { buffer: VecDeque::new(), schema }
    }

    /// Puts a record at the end of the buffer and says how many it holds.
    pub fn push(&mut self, report: ExecutionReport) -> (r: usize)
        ensures
            final(self).buffer@ == old(self).buffer@.push(report),
            final(self).schema == old(self).schema,
            r == final(self).buffer@.len(),
    {
        self.buffer.push_back(report);
        self.buffer.len()
    }

    /// Takes every record out of the buffer, the oldest first.
    pub fn drain(&mut self) -> (r: Vec<ExecutionReport>)
        ensures
            r@ == old(self).buffer@,
            final(self).buffer@ == Seq::<ExecutionReport>::empty(),
            final(self).schema == old(self).schema,
    {
        let ghost all = self.buffer@;
        let mut out: Vec<ExecutionReport> = Vec::new();
        while self.buffer.len() > 0
            invariant
                out@ + self.buffer@ == all,
                self.schema == old(self).schema,
            decreases self.buffer@.len(),
        {
            let ghost rest = self.buffer@;
            match self.buffer.pop_front() {
                Some(report) => {
                    out.push(report);
                    assert(out@ + self.buffer@ =~= all) by {
                        assert(rest =~= seq![report] + self.buffer@);
                    }
                },
                None => {},
            }
        }
        assert(out@ =~= all);
        assert(self.buffer@ =~= Seq::<ExecutionReport>::empty());
        out
    }
}

/// Why a report could not be sent.
#[derive(Debug, PartialEq, Eq)]
pub enum AgentError {
    Lock(String),
    Unauthorized,
    Forbidden,
    RateLimited,
    Unknown(String),
}

/// The text of an error.
pub open spec fn error_text(e: AgentError) -> Seq<char> {
    match e {
        AgentError::Lock(m) => "unable to acquire lock: "@ + m@,
        AgentError::Unauthorized => "unable to send report: token is missing"@,
        AgentError::Forbidden => "unable to send report: no access"@,
        AgentError::RateLimited => "unable to send report: rate limited"@,
        AgentError::Unknown(m) => "unable to send report: "@ + m@,
    }
}

impl AgentError {
    /// The text of this error.
    pub fn message(&self) -> (r: String)
        ensures
            r@ == error_text(*self),
    {
        match self {
            AgentError::Lock(m) => prefixed("unable to acquire lock: ", m.as_str()),
            AgentError::Unauthorized => owned("unable to send report: token is missing"),
            AgentError::Forbidden => owned("unable to send report: no access"),
            AgentError::RateLimited => owned("unable to send report: rate limited"),
            AgentError::Unknown(m) => prefixed("unable to send report: ", m.as_str()),
        }
    }
}

/// The usage agent, as its single owner sees it.
pub struct UsageAgent {
    pub token: String,
    pub buffer_size: usize,
    pub endpoint: String,
    pub state: State,
    pub processor: OperationProcessor,
}

/// There is one outcome for each record, and each is an outcome that
/// processing the operation of its record afresh may have.
pub open spec fn processed_each<P, Q>(
    reports: Seq<ExecutionReport>,
    outcomes: Seq<Outcome>,
    parse: P,
    print: Q,
    schema: crate::schema::SchemaView,
) -> bool where P: Fn(&str) -> Result<Document, String>, Q: Fn(&Document) -> Result<String, String> {
    outcomes.len() == reports.len() && forall|k: int|
        0 <= k < reports.len() ==> yields(
            parse,
            print,
            schema,
            reports[k].operation_body@,
            outcome_view(#[trigger] outcomes[k]),
        )
}

/// A report assembled from the first `n` records reads no later outcome.
pub proof fn lemma_assembled_prefix(reports: Seq<ExecutionReport>, a: Seq<Outcome>, b: Seq<Outcome>, n: int)
    requires
        0 <= n <= reports.len(),
        n <= a.len(),
        n <= b.len(),
        forall|i: int| 0 <= i < n ==> a[i] == b[i],
    ensures
        assembled(reports, a, n) == assembled(reports, b, n),
    decreases n,
{
    if n > 0 {
        lemma_assembled_prefix(reports, a, b, n - 1);
    }
}

impl UsageAgent {
    /// An agent with an empty buffer and a processor that remembers nothing.
    pub fn new(schema: Schema, token: String, endpoint: String, buffer_size: usize) -> (r: UsageAgent)
        ensures
            r.processor.wf(),
            r.processor.entries().len() == 0,
            r.state.buffer@ == Seq::<ExecutionReport>::empty(),
            r.state.schema == schema,
            r.token == token,
            r.endpoint == endpoint,
            r.buffer_size == buffer_size,
    {
        UsageAgent { token, buffer_size, endpoint, state: State::new(schema), processor: OperationProcessor::new() }
    }

    /// Whether a buffer that holds `size` records is due for a flush.
    pub fn flush_if_full(&self, size: usize) -> (r: bool)
        ensures
            r == (size >= self.buffer_size),
    {
        size >= self.buffer_size
    }

    /// Puts a record at the end of the buffer. The result says whether a
    /// flush is to be scheduled, which is so when the buffer has reached the
    /// configured size; with a size of 0 every record schedules one.
    pub fn add_report(&mut self, execution_report: ExecutionReport) -> (r: bool)
        ensures
            final(self).state.buffer@ == old(self).state.buffer@.push(execution_report),
            final(self).state.schema == old(self).state.schema,
            final(self).buffer_size == old(self).buffer_size,
            final(self).token == old(self).token,
            final(self).endpoint == old(self).endpoint,
            final(self).processor == old(self).processor,
            r == (final(self).state.buffer@.len() >= old(self).buffer_size),
            old(self).buffer_size == 0 ==> r,
    {
        let size = self.state.push(execution_report);
        self.flush_if_full(size)
    }

    /// The report on drained records. The operation of each record is
    /// processed, with `parse` and `print` doing what the processor leaves
    /// to them. A record whose operation fails to process or is not reported
    /// is left out. The report is well formed, whatever the outcomes were.
    pub fn produce_report<P, Q>(&mut self, reports: Vec<ExecutionReport>, parse: &P, print: &Q) -> (r: Report) where
        P: Fn(&str) -> Result<Document, String>,
        Q: Fn(&Document) -> Result<String, String>,

        requires
            old(self).processor.wf(),
            coherent(old(self).processor.entries(), *parse, *print, old(self).state.schema@),
            forall|q: &str| call_requires(*parse, (q,)),
            forall|d: &Document| call_requires(*print, (d,)),
        ensures
            final(self).processor.wf(),
            coherent(final(self).processor.entries(), *parse, *print, old(self).state.schema@),
            final(self).state == old(self).state,
            final(self).buffer_size == old(self).buffer_size,
            well_formed(r@),
            exists|outcomes: Seq<Outcome>| #[trigger]
                processed_each(reports@, outcomes, *parse, *print, old(self).state.schema@) && r@ == assembled(
                    reports@,
                    outcomes,
                    reports@.len() as int,
                ),
    {
        let ghost all = reports@;
        assert(reports.len() <= usize::MAX);
        let mut rest = reports;
        let mut pending: Vec<ExecutionReport> = Vec::new();
        // The records are taken from the back, so they are turned round first.
        while rest.len() > 0
            invariant
                rest@ + pending@.reverse() == all,
            decreases rest@.len(),
        {
            let ghost r0 = rest@;
            let ghost p0 = pending@;
            match rest.pop() {
                Some(op) => {
                    pending.push(op);
                    assert(pending@.reverse() =~= seq![op] + p0.reverse());
                    assert(rest@ + pending@.reverse() =~= r0 + p0.reverse());
                },
                None => {},
            }
        }
        assert(pending@.reverse() =~= all);
        let ghost total = all.len() as int;
        let ghost outcomes: Seq<Outcome> = Seq::empty();
        let mut report = Report::new();
        while pending.len() > 0
            invariant
                self.processor.wf(),
                coherent(self.processor.entries(), *parse, *print, old(self).state.schema@),
                self.state == old(self).state,
                self.buffer_size == old(self).buffer_size,
                forall|q: &str| call_requires(*parse, (q,)),
                forall|d: &Document| call_requires(*print, (d,)),
                total == all.len(),
                outcomes.len() + pending@.len() == total,
                forall|k: int|
                    0 <= k < outcomes.len() ==> yields(
                        *parse,
                        *print,
                        old(self).state.schema@,
                        all[k].operation_body@,
                        outcome_view(#[trigger] outcomes[k]),
                    ),
                forall|k: int| 0 <= k < pending@.len() ==> pending@[k] == all[total - 1 - k],
                report@ == assembled(all, outcomes, outcomes.len() as int),
                report@.size == report@.operations.len(),
            decreases pending@.len(),
        {
            match pending.pop() {
                Some(op) => {
                    let ghost done = outcomes.len() as int;
                    assert(op == all[done]);
                    let outcome = self.processor.process(op.operation_body.as_str(), &self.state.schema, parse, print);
                    proof {
                        let next = outcomes.push(outcome);
                        lemma_assembled_prefix(all, outcomes, next, done);
                        outcomes = next;
                    }
                    report.record(op, outcome);
                },
                None => {},
            }
        }
        proof {
            lemma_assembled_well_formed(all, outcomes, total);
            assert(processed_each(all, outcomes, *parse, *print, old(self).state.schema@));
        }
        report
    }

    /// Takes the buffered records out, the oldest first, and assembles the
    /// report on them. There is no report when the buffer is empty.
    pub fn flush<P, Q>(&mut self, parse: &P, print: &Q) -> (r: Option<Report>) where
        P: Fn(&str) -> Result<Document, String>,
        Q: Fn(&Document) -> Result<String, String>,

        requires
            old(self).processor.wf(),
            coherent(old(self).processor.entries(), *parse, *print, old(self).state.schema@),
            forall|q: &str| call_requires(*parse, (q,)),
            forall|d: &Document| call_requires(*print, (d,)),
        ensures
            final(self).processor.wf(),
            coherent(final(self).processor.entries(), *parse, *print, old(self).state.schema@),
            final(self).state.buffer@ == Seq::<ExecutionReport>::empty(),
            final(self).state.schema == old(self).state.schema,
            final(self).buffer_size == old(self).buffer_size,
            match r {
                Some(report) => old(self).state.buffer@.len() > 0 && well_formed(report@) && exists|
                    outcomes: Seq<Outcome>,
                | #[trigger]
                    processed_each(old(self).state.buffer@, outcomes, *parse, *print, old(self).state.schema@)
                        && report@ == assembled(
                        old(self).state.buffer@,
                        outcomes,
                        old(self).state.buffer@.len() as int,
                    ),
                None => old(self).state.buffer@.len() == 0,
            },
    {
        let records = self.state.drain();
        if records.len() > 0 {
            Some(self.produce_report(records, parse, print))
        } else {
            None
        }
    }
}

impl Report {
    /// The report on drained records, given for each what processing its
    /// operation yielded. A record whose operation failed to process or is
    /// not reported is left out. The report is well formed.
    pub fn assemble(reports: Vec<ExecutionReport>, outcomes: Vec<Outcome>) -> (r: Report)
        requires
            reports@.len() == outcomes@.len(),
        ensures
            r@ == assembled(reports@, outcomes@, reports@.len() as int),
            well_formed(r@),
    {
        let ghost all_reports = reports@;
        let ghost all_outcomes = outcomes@;
        assert(reports.len() <= usize::MAX);
        let mut report = Report::new();
        let mut reports = reports;
        let mut outcomes = outcomes;
        let mut rest_reports: Vec<ExecutionReport> = Vec::new();
        let mut rest_outcomes: Vec<Outcome> = Vec::new();
        // Both vectors are read from the back, so they are turned round first.
        while reports.len() > 0
            invariant
                reports@.len() == outcomes@.len(),
                rest_reports@.len() == rest_outcomes@.len(),
                reports@ + rest_reports@.reverse() == all_reports,
                outcomes@ + rest_outcomes@.reverse() == all_outcomes,
            decreases reports@.len(),
        {
            let ghost r0 = reports@;
            let ghost o0 = outcomes@;
            let ghost rr0 = rest_reports@;
            let ghost ro0 = rest_outcomes@;
            match (reports.pop(), outcomes.pop()) {
                (Some(op), Some(outcome)) => {
                    rest_reports.push(op);
                    rest_outcomes.push(outcome);
                    assert(rest_reports@.reverse() =~= seq![op] + rr0.reverse());
                    assert(rest_outcomes@.reverse() =~= seq![outcome] + ro0.reverse());
                    assert(reports@ + rest_reports@.reverse() =~= r0 + rr0.reverse());
                    assert(outcomes@ + rest_outcomes@.reverse() =~= o0 + ro0.reverse());
                },
                _ => {},
            }
        }
        assert(rest_reports@.reverse() =~= all_reports);
        assert(rest_outcomes@.reverse() =~= all_outcomes);
        let ghost total = all_reports.len() as int;
        let mut done: usize = 0;
        while rest_reports.len() > 0
            invariant
                rest_reports@.len() == rest_outcomes@.len(),
                done + rest_reports@.len() == total,
                total == all_reports.len() == all_outcomes.len(),
                total <= usize::MAX,
                forall|k: int| 0 <= k < rest_reports@.len() ==> rest_reports@[k] == all_reports[total - 1 - k],
                forall|k: int| 0 <= k < rest_outcomes@.len() ==> rest_outcomes@[k] == all_outcomes[total - 1 - k],
                report@ == assembled(all_reports, all_outcomes, done as int),
                report@.size == report@.operations.len(),
            decreases rest_reports@.len(),
        {
            match (rest_reports.pop(), rest_outcomes.pop()) {
                (Some(op), Some(outcome)) => {
                    assert(op == all_reports[done as int]);
                    assert(outcome == all_outcomes[done as int]);
                    report.record(op, outcome);
                    done = done + 1;
                },
                _ => {},
            }
        }
        proof {
            lemma_assembled_well_formed(all_reports, all_outcomes, total);
        }
        report
    }
}

/// What came back when a report was posted.
#[derive(Debug)]
pub enum Reply {
    /// The request could not be made or answered; the failure is described.
    Failed(String),
    /// The server answered with a status code and a body.
    Status { code: u16, body: String },
}

/// What is to be done once a reply is in.
#[derive(Debug)]
pub enum SendStep {
    /// The exchange is over, well or with an error.
    Done(Result<(), AgentError>),
    /// The report is to be posted again after a pause of so many milliseconds.
    Retry { wait_ms: u64 },
}

/// How often a report is posted at most.
pub const MAX_TRIES: u8 = 3;

/// The pause between two tries, in milliseconds.
pub const DELAY_BETWEEN_TRIES: u64 = 500;

/// The text that describes a reply whose status is none of those that end
/// the exchange.
pub open spec fn unclassified(code: u16, body: Seq<char>) -> Seq<char> {
    "("@ + decimal_digits(code as nat) + ") "@ + body
}

/// The error that ends an exchange, if `step` ends it with one.
pub open spec fn step_error(step: SendStep) -> Option<AgentError> {
    match step {
        SendStep::Done(Err(e)) => Some(e),
        _ => None,
    }
}

/// The condition under which `step` is what follows the reply to try number
/// `tries_made`. A failed request ends the exchange at once, and so do the
/// statuses 200, 401, 403 and 429. Any other status leads to another try
/// after the pause, until the last try is made; then the exchange ends with
/// the description of the reply.
pub open spec fn follows(tries_made: u8, reply: Reply, step: SendStep) -> bool {
    match reply {
        Reply::Failed(e) => step_error(step) matches Some(AgentError::Unknown(m)) && m@ == e@,
        Reply::Status { code, body } => if code == 200 {
            step == SendStep::Done(Ok(()))
        } else if code == 401 {
            step == SendStep::Done(Err(AgentError::Unauthorized))
        } else if code == 403 {
            step == SendStep::Done(Err(AgentError::Forbidden))
        } else if code == 429 {
            step == SendStep::Done(Err(AgentError::RateLimited))
        } else if tries_made < MAX_TRIES {
            step == (SendStep::Retry { wait_ms: DELAY_BETWEEN_TRIES })
        } else {
            step_error(step) matches Some(AgentError::Unknown(m)) && m@ == unclassified(code, body@)
        },
    }
}

impl UsageAgent {
    /// The value of the authorization header of a report.
    pub fn authorization(&self) -> (r: String)
        ensures
            r@ == "Bearer "@ + self.token@,
    {
        prefixed("Bearer ", self.token.as_str())
    }

    /// The value of the user agent header, with the commit that the program
    /// was built from, or `local` where none is known.
    pub fn user_agent(commit: Option<&str>) -> (r: String)
        ensures
            r@ == "hive-apollo-router/"@ + match commit {
                Some(c) => c@,
                None => "local"@,
            },
    {
        match commit {
            Some(c) => prefixed("hive-apollo-router/", c),
            None => prefixed("hive-apollo-router/", "local"),
        }
    }

    /// What is to be done once the reply to try number `tries_made` is in,
    /// where the first try has the number 1.
    pub fn send_report(tries_made: u8, reply: Reply) -> (step: SendStep)
        requires
            1 <= tries_made <= MAX_TRIES,
        ensures
            follows(tries_made, reply, step),
    {
        match reply {
            Reply::Failed(e) => SendStep::Done(Err(AgentError::Unknown(e))),
            Reply::Status { code, body } => {
                if code == 200 {
                    SendStep::Done(Ok(()))
                } else if code == 401 {
                    SendStep::Done(Err(AgentError::Unauthorized))
                } else if code == 403 {
                    SendStep::Done(Err(AgentError::Forbidden))
                } else if code == 429 {
                    SendStep::Done(Err(AgentError::RateLimited))
                } else if tries_made < MAX_TRIES {
                    SendStep::Retry { wait_ms: DELAY_BETWEEN_TRIES }
                } else {
                    let mut message = owned("(");
                    message.append(decimal_text(code as u64).as_str());
                    message.append(") ");
                    message.append(body.as_str());
                    SendStep::Done(Err(AgentError::Unknown(message)))
                }
            },
        }
    }
}

} // verus!
