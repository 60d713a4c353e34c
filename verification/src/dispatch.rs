//! Which tool an action of a tool suite (proxy, HTTP, target, scanner, scan
//! configurations, fuzzer, Collaborator, diff, site graph, WebSockets,
//! session rules, settings, logger, organizer) runs, with the arguments it passes on
//! and their defaults.
use crate::inputs::{
    CollaboratorGenerateInput, CollaboratorPollInput, DiffResponsesInput, ScanConfigurationIdInput,
    ScanConfigurationUpsertInput, ScanResourcePoolIdInput, ScanResourcePoolUpsertInput,
    ScopeCheckInput, ScopeMutationInput, SendToComparerInput, SitemapInput, TargetInfoInput,
    AnnotateInput, ConvertRequestInput, ExportRequestInput, ExtractResponseInput, HighlightInput,
    ProxyDetailInput, ProxyHistoryInput, ProxyWebSocketHistoryInput, SendRequestInput,
    SendRequestsInput, SendToRepeaterInput, AuditInput, BCheckTestInput, CrawlInput, GenerateScannerReportInput, JobInput,
    ScanIssueDetailInput, ScanIssueUpdateInput, ScanIssuesInput, BoundedInputMatrixInput, ConcurrentRequestCheckInput, CreatePayloadListInput,
    GetPayloadListInput, ImportPayloadListInput, PayloadListIdInput, PayloadRegistrationInput,
    RegisterPayloadGeneratorInput, RegisterPayloadProcessorInput, SendToIntruderInput,
    SiteGraphClustersInput, SiteGraphDiffInput, SiteGraphEndpointInput, SiteGraphExportInput,
    SiteGraphHistorySearchInput, SiteGraphImpactInput, SiteGraphNeighborsInput,
    SiteGraphSearchInput, SiteGraphShortestPathInput, SiteGraphSyncInput, SiteGraphTraceInput,
    UpdatePayloadListInput, ManagedWebSocketHistoryInput, WebSocketBinaryInput,
    WebSocketCreateInput, WebSocketIdInput, WebSocketTextInput, CreateMacroInput,
    MacroDescriptionInput, MacroItemInput, SessionRuleIdInput, SessionRuleUpsertInput,
    LoggerClearInput, LoggerDetailInput, LoggerHistoryInput, OrganizerListInput,
    OrganizerSendInput, ImportConfigInput, InspectConfigInput, ProxyInterceptConfigInput,
    ProxySettingsUpdateInput, RegisterHttpHandlerInput, RegisterProxyRuleInput,
    RemoveProxyRuleInput, SetInterceptStateInput,
};
use crate::suite::{
    CollaboratorActionInput, DiffActionInput, ScanConfigActionInput, TargetActionInput,
    FuzzerActionInput, HttpAction, HttpActionInput, ProxyActionInput, ScannerActionInput,
    SiteGraphActionInput, WebSocketActionInput, SessionActionInput, LoggerActionInput,
    OrganizerActionInput, SettingsAction, SettingsActionInput,
};
use crate::text::{chars_eq, chars_of, string_from_chars, trim_chars, trim_seq};
use vstd::prelude::*;

verus! {

pub open spec fn or_text(o: Option<String>, default: Seq<char>) -> Seq<char> {
    match o {
        Some(s) => s@,
        None => default,
    }
}

pub open spec fn or_list(o: Option<Vec<String>>) -> Seq<String> {
    match o {
        Some(v) => v@,
        None => Seq::empty(),
    }
}

fn text_or(o: Option<String>, default: &str) -> (r: String)
    ensures
        r@ == or_text(o, default@),
{
    match o {
        Some(s) => s,
        None => string_from_chars(chars_of(default).as_slice()),
    }
}

fn list_or_empty(o: Option<Vec<String>>) -> (r: Vec<String>)
    ensures
        r@ == or_list(o),
{
    match o {
        Some(v) => v,
        None => Vec::new(),
    }
}

fn copy_text(s: &String) -> (r: String)
    ensures
        r@ == s@,
{
    string_from_chars(chars_of(s.as_str()).as_slice())
}

fn is_action(action: &String, name: &str) -> (r: bool)
    ensures
        r == (action@ == name@),
{
    chars_eq(chars_of(action.as_str()).as_slice(), chars_of(name).as_slice())
}

// ---------------------------------------------------------------------------
// Fuzzer
// ---------------------------------------------------------------------------

/// A tool run by the fuzzer suite.
#[derive(Debug)]
pub enum FuzzerCall {
    Fuzz(BoundedInputMatrixInput),
    Race(ConcurrentRequestCheckInput),
    SendToIntruder(SendToIntruderInput),
    ListPayloads,
    GetPayloadList(GetPayloadListInput),
    CreatePayloadList(CreatePayloadListInput),
    ImportPayloadList(ImportPayloadListInput),
    DeletePayloadList(PayloadListIdInput),
    UpsertPayloads(UpdatePayloadListInput),
    RegisterPayloadProcessor(RegisterPayloadProcessorInput),
    ListPayloadProcessors,
    RemovePayloadProcessor(PayloadRegistrationInput),
    RegisterPayloadGenerator(RegisterPayloadGeneratorInput),
    ListPayloadGenerators,
    RemovePayloadGenerator(PayloadRegistrationInput),
}

/// The fuzzer suite's actions.
pub open spec fn fuzzer_action(a: Seq<char>) -> bool {
    a == "fuzz"@ || a == "race"@ || a == "send_to_intruder"@ || a == "list_payloads"@ || a
        == "get_payload_list"@ || a == "create_payload_list"@ || a == "import_payload_list"@ || a
        == "upsert_payloads"@ || a == "delete_payload_list"@ || a == "register_payload_processor"@
        || a == "list_payload_processors"@ || a == "remove_payload_processor"@ || a
        == "register_payload_generator"@ || a == "list_payload_generators"@ || a
        == "remove_payload_generator"@
}

/// `c` is what the fuzzer suite runs for `i`: the tool the action names,
/// with the suite's fields passed on and missing texts defaulted (empty, or
/// `default`/`imported` for a list id, the id for a display name, `prefix`
/// for a processor operation).
pub open spec fn fuzzer_call_ok(i: FuzzerActionInput, c: FuzzerCall) -> bool {
    let a = i.action@;
    if a == "fuzz"@ {
        c matches FuzzerCall::Fuzz(x) && x.template@ == or_text(i.template, Seq::empty()) && x.host@
            == or_text(i.host, Seq::empty()) && x.port == i.port && x.https == i.https && x.marker
            == i.marker && x.wordlist == i.wordlist && x.payload_list_id == i.payload_list_id
            && x.payload_offset == i.payload_offset && x.attack_mode == i.attack_mode && x.markers
            == i.markers
    } else if a == "race"@ {
        c matches FuzzerCall::Race(x) && x.request@ == or_text(i.request, Seq::empty()) && x.host@
            == or_text(i.host, Seq::empty()) && x.port == i.port && x.https == i.https && x.count
            == i.count && x.single_packet_attack == i.single_packet_attack
    } else if a == "send_to_intruder"@ {
        c matches FuzzerCall::SendToIntruder(x) && x.request@ == or_text(i.request, Seq::empty())
            && x.host@ == or_text(i.host, Seq::empty()) && x.port == i.port && x.https == i.https
            && x.tab_name == i.tab_name
    } else if a == "list_payloads"@ {
        c is ListPayloads
    } else if a == "get_payload_list"@ {
        c matches FuzzerCall::GetPayloadList(x) && x.id@ == or_text(i.id, Seq::empty()) && x.limit
            == i.count && x.offset == i.payload_offset
    } else if a == "create_payload_list"@ {
        c matches FuzzerCall::CreatePayloadList(x) && x.id@ == or_text(i.id, "default"@)
            && x.display_name@ == or_text(i.name, or_text(i.id, "default"@)) && x.payloads@
            == or_list(i.payloads)
    } else if a == "import_payload_list"@ {
        c matches FuzzerCall::ImportPayloadList(x) && x.id@ == or_text(i.id, "imported"@)
            && x.display_name@ == or_text(i.name, or_text(i.id, "imported"@)) && x.content@
            == or_text(i.template, Seq::empty()) && x.format == i.attack_mode && x.keep_empty is None
    } else if a == "delete_payload_list"@ {
        c matches FuzzerCall::DeletePayloadList(x) && x.id@ == or_text(i.id, Seq::empty())
    } else if a == "upsert_payloads"@ {
        c matches FuzzerCall::UpsertPayloads(x) && x.id@ == or_text(i.id, Seq::empty())
            && x.operation@ == "replace_all"@ && x.payloads is Some && x.payloads->0@ == or_list(
            i.payloads,
        ) && x.index is None && x.indexes is None && x.display_name is Some
            && x.display_name->0@ == or_text(i.name, or_text(i.id, Seq::empty()))
    } else if a == "register_payload_processor"@ {
        c matches FuzzerCall::RegisterPayloadProcessor(x) && x.id@ == or_text(i.id, Seq::empty())
            && x.display_name@ == or_text(i.name, or_text(i.id, Seq::empty())) && x.operation@
            == or_text(i.attack_mode, "prefix"@) && x.argument == i.marker && x.replacement
            == i.template
    } else if a == "list_payload_processors"@ {
        c is ListPayloadProcessors
    } else if a == "remove_payload_processor"@ {
        c matches FuzzerCall::RemovePayloadProcessor(x) && x.id@ == or_text(i.id, Seq::empty())
    } else if a == "register_payload_generator"@ {
        c matches FuzzerCall::RegisterPayloadGenerator(x) && x.id@ == or_text(i.id, Seq::empty())
            && x.display_name@ == or_text(i.name, or_text(i.id, Seq::empty())) && x.payloads@
            == or_list(i.payloads) && x.payload_list_id == i.payload_list_id && x.payload_offset
            == i.payload_offset && x.max_output_count == i.count
    } else if a == "list_payload_generators"@ {
        c is ListPayloadGenerators
    } else {
        c matches FuzzerCall::RemovePayloadGenerator(x) && x.id@ == or_text(i.id, Seq::empty())
    }
}

/// The tool an action of the fuzzer suite runs; `None` for an action the
/// suite does not have.
pub fn plan_fuzzer_action(input: FuzzerActionInput) -> (r: Option<FuzzerCall>)
    ensures
        match r {
            Some(c) => fuzzer_action(input.action@) && fuzzer_call_ok(input, c),
            None => !fuzzer_action(input.action@),
        },
{
    proof {
        reveal_strlit("fuzz");
        reveal_strlit("race");
        reveal_strlit("send_to_intruder");
        reveal_strlit("list_payloads");
        reveal_strlit("get_payload_list");
        reveal_strlit("create_payload_list");
        reveal_strlit("import_payload_list");
        reveal_strlit("upsert_payloads");
        reveal_strlit("delete_payload_list");
        reveal_strlit("register_payload_processor");
        reveal_strlit("list_payload_processors");
        reveal_strlit("remove_payload_processor");
        reveal_strlit("register_payload_generator");
        reveal_strlit("list_payload_generators");
        reveal_strlit("remove_payload_generator");
        reveal_strlit("");
        assert(""@ =~= Seq::<char>::empty());
    }
    let a = &input.action;
    if is_action(a, "fuzz") {
        Some(
            FuzzerCall::Fuzz(
                BoundedInputMatrixInput {
                    template: text_or(input.template, ""),
                    host: text_or(input.host, ""),
                    port: input.port,
                    https: input.https,
                    marker: input.marker,
                    wordlist: input.wordlist,
                    payload_list_id: input.payload_list_id,
                    payload_offset: input.payload_offset,
                    attack_mode: input.attack_mode,
                    markers: input.markers,
                },
            ),
        )
    } else if is_action(a, "race") {
        Some(
            FuzzerCall::Race(
                ConcurrentRequestCheckInput {
                    request: text_or(input.request, ""),
                    host: text_or(input.host, ""),
                    port: input.port,
                    https: input.https,
                    count: input.count,
                    single_packet_attack: input.single_packet_attack,
                },
            ),
        )
    } else if is_action(a, "send_to_intruder") {
        Some(
            FuzzerCall::SendToIntruder(
                SendToIntruderInput {
                    request: text_or(input.request, ""),
                    host: text_or(input.host, ""),
                    port: input.port,
                    https: input.https,
                    tab_name: input.tab_name,
                },
            ),
        )
    } else if is_action(a, "list_payloads") {
        Some(FuzzerCall::ListPayloads)
    } else if is_action(a, "get_payload_list") {
        Some(
            FuzzerCall::GetPayloadList(
                GetPayloadListInput {
                    id: text_or(input.id, ""),
                    limit: input.count,
                    offset: input.payload_offset,
                },
            ),
        )
    } else if is_action(a, "create_payload_list") {
        let id = text_or(input.id, "default");
        let display_name = match input.name {
            Some(n) => n,
            None => copy_text(&id),
        };
        Some(
            FuzzerCall::CreatePayloadList(
                CreatePayloadListInput { id, display_name, payloads: list_or_empty(input.payloads) },
            ),
        )
    } else if is_action(a, "import_payload_list") {
        let id = text_or(input.id, "imported");
        let display_name = match input.name {
            Some(n) => n,
            None => copy_text(&id),
        };
        Some(
            FuzzerCall::ImportPayloadList(
                ImportPayloadListInput {
                    id,
                    display_name,
                    content: text_or(input.template, ""),
                    format: input.attack_mode,
                    keep_empty: None,
                },
            ),
        )
    } else if is_action(a, "delete_payload_list") {
        Some(FuzzerCall::DeletePayloadList(PayloadListIdInput { id: text_or(input.id, "") }))
    } else if is_action(a, "upsert_payloads") {
        let id = text_or(input.id, "");
        let name = match input.name {
            Some(n) => n,
            None => copy_text(&id),
        };
        Some(
            FuzzerCall::UpsertPayloads(
                UpdatePayloadListInput {
                    id,
                    operation: string_from_chars(chars_of("replace_all").as_slice()),
                    payloads: Some(list_or_empty(input.payloads)),
                    index: None,
                    indexes: None,
                    display_name: Some(name),
                },
            ),
        )
    } else if is_action(a, "register_payload_processor") {
        let id = text_or(input.id, "");
        let display_name = match input.name {
            Some(n) => n,
            None => copy_text(&id),
        };
        Some(
            FuzzerCall::RegisterPayloadProcessor(
                RegisterPayloadProcessorInput {
                    id,
                    display_name,
                    operation: text_or(input.attack_mode, "prefix"),
                    argument: input.marker,
                    replacement: input.template,
                },
            ),
        )
    } else if is_action(a, "list_payload_processors") {
        Some(FuzzerCall::ListPayloadProcessors)
    } else if is_action(a, "remove_payload_processor") {
        Some(FuzzerCall::RemovePayloadProcessor(PayloadRegistrationInput { id: text_or(input.id, "") }))
    } else if is_action(a, "register_payload_generator") {
        let id = text_or(input.id, "");
        let display_name = match input.name {
            Some(n) => n,
            None => copy_text(&id),
        };
        Some(
            FuzzerCall::RegisterPayloadGenerator(
                RegisterPayloadGeneratorInput {
                    id,
                    display_name,
                    payloads: list_or_empty(input.payloads),
                    max_output_count: input.count,
                    payload_list_id: input.payload_list_id,
                    payload_offset: input.payload_offset,
                },
            ),
        )
    } else if is_action(a, "list_payload_generators") {
        Some(FuzzerCall::ListPayloadGenerators)
    } else if is_action(a, "remove_payload_generator") {
        Some(FuzzerCall::RemovePayloadGenerator(PayloadRegistrationInput { id: text_or(input.id, "") }))
    } else {
        None
    }
}

// ---------------------------------------------------------------------------
// Site graph
// ---------------------------------------------------------------------------

/// A tool run, or a graph query made, by the site-graph suite.
#[derive(Debug)]
pub enum SiteGraphCall {
    Status,
    Stats,
    Sync(SiteGraphSyncInput),
    Search(SiteGraphSearchInput),
    SecurityView { view: String, limit: usize },
    ImportSpec { spec: String, base_url: String },
    Neighbors(SiteGraphNeighborsInput),
    Trace(SiteGraphTraceInput),
    ShortestPath(SiteGraphShortestPathInput),
    Clusters(SiteGraphClustersInput),
    Impact(SiteGraphImpactInput),
    Diff(SiteGraphDiffInput),
    Export(SiteGraphExportInput),
    HistorySearch(SiteGraphHistorySearchInput),
    EndpointDetail(SiteGraphEndpointInput),
    Projects,
    Config,
}

/// The site-graph suite's actions.
pub open spec fn sitegraph_action(a: Seq<char>) -> bool {
    a == "status"@ || a == "stats"@ || a == "sync"@ || a == "search"@ || a == "security_view"@ || a
        == "import_spec"@ || a == "neighbors"@ || a == "trace"@ || a == "shortest_path"@ || a
        == "clusters"@ || a == "impact"@ || a == "diff"@ || a == "export"@ || a
        == "history_search"@ || a == "endpoint_detail"@ || a == "projects"@ || a == "config"@
}

/// `c` is what the site-graph suite runs for `i`: missing texts are empty,
/// a security view is `unauthenticated` with 50 rows unless given, an
/// imported specification is based at `https://localhost` unless a URL
/// prefix is given, and a diff starts at 0.
pub open spec fn sitegraph_call_ok(i: SiteGraphActionInput, c: SiteGraphCall) -> bool {
    let a = i.action@;
    if a == "status"@ {
        c is Status
    } else if a == "stats"@ {
        c is Stats
    } else if a == "sync"@ {
        c matches SiteGraphCall::Sync(x) && x.url_prefix == i.url_prefix
    } else if a == "search"@ {
        c matches SiteGraphCall::Search(x) && x.query@ == or_text(i.query, Seq::empty()) && x.limit
            == i.limit && x.cursor == i.cursor
    } else if a == "security_view"@ {
        c matches SiteGraphCall::SecurityView { view, limit } && view@ == or_text(
            i.view_name,
            "unauthenticated"@,
        ) && limit == (match i.limit {
            Some(l) => l,
            None => 50,
        })
    } else if a == "import_spec"@ {
        c matches SiteGraphCall::ImportSpec { spec, base_url } && spec@ == or_text(
            i.spec_content,
            Seq::empty(),
        ) && base_url@ == or_text(i.url_prefix, "https://localhost"@)
    } else if a == "neighbors"@ {
        c matches SiteGraphCall::Neighbors(x) && x.id@ == or_text(i.id, Seq::empty()) && x.limit
            == i.limit && x.cursor == i.cursor
    } else if a == "trace"@ {
        c matches SiteGraphCall::Trace(x) && x.id@ == or_text(i.id, Seq::empty()) && x.max_depth
            == i.max_depth && x.limit == i.limit
    } else if a == "shortest_path"@ {
        c matches SiteGraphCall::ShortestPath(x) && x.from_id@ == or_text(i.from_id, Seq::empty())
            && x.to_id@ == or_text(i.to_id, Seq::empty()) && x.max_depth == i.max_depth
    } else if a == "clusters"@ {
        c matches SiteGraphCall::Clusters(x) && x.limit == i.limit
    } else if a == "impact"@ {
        c matches SiteGraphCall::Impact(x) && x.id@ == or_text(i.id, Seq::empty()) && x.max_depth
            == i.max_depth && x.limit == i.limit
    } else if a == "diff"@ {
        c matches SiteGraphCall::Diff(x) && x.since == (match i.since {
            Some(s) => s,
            None => 0,
        }) && x.limit == i.limit && x.cursor == i.cursor
    } else if a == "export"@ {
        c matches SiteGraphCall::Export(x) && x.profile == i.profile && x.format == i.format
            && x.snapshot_id == i.snapshot_id && x.cursor == i.cursor && x.limit == i.limit
    } else if a == "history_search"@ {
        c matches SiteGraphCall::HistorySearch(x) && x.query@ == or_text(i.query, Seq::empty())
            && x.source == i.profile && x.limit == i.limit && x.cursor == i.cursor
    } else if a == "endpoint_detail"@ {
        c matches SiteGraphCall::EndpointDetail(x) && x.id@ == or_text(i.id, Seq::empty())
    } else if a == "projects"@ {
        c is Projects
    } else {
        c is Config
    }
}

/// What an action of the site-graph suite runs; `None` for an action the
/// suite does not have.
pub fn plan_sitegraph_action(input: SiteGraphActionInput) -> (r: Option<SiteGraphCall>)
    ensures
        match r {
            Some(c) => sitegraph_action(input.action@) && sitegraph_call_ok(input, c),
            None => !sitegraph_action(input.action@),
        },
{
    proof {
        reveal_strlit("status");
        reveal_strlit("stats");
        reveal_strlit("sync");
        reveal_strlit("search");
        reveal_strlit("security_view");
        reveal_strlit("import_spec");
        reveal_strlit("neighbors");
        reveal_strlit("trace");
        reveal_strlit("shortest_path");
        reveal_strlit("clusters");
        reveal_strlit("impact");
        reveal_strlit("diff");
        reveal_strlit("export");
        reveal_strlit("history_search");
        reveal_strlit("endpoint_detail");
        reveal_strlit("projects");
        reveal_strlit("config");
        reveal_strlit("");
        assert(""@ =~= Seq::<char>::empty());
    }
    let a = &input.action;
    if is_action(a, "status") {
        Some(SiteGraphCall::Status)
    } else if is_action(a, "stats") {
        Some(SiteGraphCall::Stats)
    } else if is_action(a, "sync") {
        Some(SiteGraphCall::Sync(SiteGraphSyncInput { url_prefix: input.url_prefix }))
    } else if is_action(a, "search") {
        Some(
            SiteGraphCall::Search(
                SiteGraphSearchInput {
                    query: text_or(input.query, ""),
                    limit: input.limit,
                    cursor: input.cursor,
                },
            ),
        )
    } else if is_action(a, "security_view") {
        let limit: usize = match input.limit {
            Some(l) => l as usize,
            None => 50,
        };
        Some(
            SiteGraphCall::SecurityView { view: text_or(input.view_name, "unauthenticated"), limit },
        )
    } else if is_action(a, "import_spec") {
        Some(
            SiteGraphCall::ImportSpec {
                spec: text_or(input.spec_content, ""),
                base_url: text_or(input.url_prefix, "https://localhost"),
            },
        )
    } else if is_action(a, "neighbors") {
        Some(
            SiteGraphCall::Neighbors(
                SiteGraphNeighborsInput {
                    id: text_or(input.id, ""),
                    limit: input.limit,
                    cursor: input.cursor,
                },
            ),
        )
    } else if is_action(a, "trace") {
        Some(
            SiteGraphCall::Trace(
                SiteGraphTraceInput {
                    id: text_or(input.id, ""),
                    max_depth: input.max_depth,
                    limit: input.limit,
                },
            ),
        )
    } else if is_action(a, "shortest_path") {
        Some(
            SiteGraphCall::ShortestPath(
                SiteGraphShortestPathInput {
                    from_id: text_or(input.from_id, ""),
                    to_id: text_or(input.to_id, ""),
                    max_depth: input.max_depth,
                },
            ),
        )
    } else if is_action(a, "clusters") {
        Some(SiteGraphCall::Clusters(SiteGraphClustersInput { limit: input.limit }))
    } else if is_action(a, "impact") {
        Some(
            SiteGraphCall::Impact(
                SiteGraphImpactInput {
                    id: text_or(input.id, ""),
                    max_depth: input.max_depth,
                    limit: input.limit,
                },
            ),
        )
    } else if is_action(a, "diff") {
        let since: i64 = match input.since {
            Some(s) => s,
            None => 0,
        };
        Some(
            SiteGraphCall::Diff(
                SiteGraphDiffInput { since, limit: input.limit, cursor: input.cursor },
            ),
        )
    } else if is_action(a, "export") {
        Some(
            SiteGraphCall::Export(
                SiteGraphExportInput {
                    profile: input.profile,
                    format: input.format,
                    snapshot_id: input.snapshot_id,
                    cursor: input.cursor,
                    limit: input.limit,
                },
            ),
        )
    } else if is_action(a, "history_search") {
        Some(
            SiteGraphCall::HistorySearch(
                SiteGraphHistorySearchInput {
                    query: text_or(input.query, ""),
                    source: input.profile,
                    limit: input.limit,
                    cursor: input.cursor,
                },
            ),
        )
    } else if is_action(a, "endpoint_detail") {
        Some(SiteGraphCall::EndpointDetail(SiteGraphEndpointInput { id: text_or(input.id, "") }))
    } else if is_action(a, "projects") {
        Some(SiteGraphCall::Projects)
    } else if is_action(a, "config") {
        Some(SiteGraphCall::Config)
    } else {
        None
    }
}

// ---------------------------------------------------------------------------
// Scanner
// ---------------------------------------------------------------------------

/// A tool run by the scanner suite.
#[derive(Debug)]
pub enum ScannerCall {
    StartAudit(AuditInput),
    StartCrawl(CrawlInput),
    Stop(JobInput),
    ListIssues(ScanIssuesInput),
    IssueDetail(ScanIssueDetailInput),
    UpdateIssue(ScanIssueUpdateInput),
    Report(GenerateScannerReportInput),
    Remove(JobInput),
    TestBcheck(BCheckTestInput),
}

/// The scanner suite's actions.
pub open spec fn scanner_action(a: Seq<char>) -> bool {
    a == "start_audit"@ || a == "start_crawl"@ || a == "stop"@ || a == "list_issues"@ || a
        == "issue_detail"@ || a == "update_issue"@ || a == "report"@ || a == "remove"@ || a
        == "test_bcheck"@
}

pub open spec fn index_or_zero(o: Option<u32>) -> u32 {
    match o {
        Some(i) => i,
        None => 0,
    }
}

/// `c` is what the scanner suite runs for `i`: missing texts are empty, an
/// issue index is 0, an updated issue is `confirmed` and a report `html`
/// unless given.
pub open spec fn scanner_call_ok(i: ScannerActionInput, c: ScannerCall) -> bool {
    let a = i.action@;
    if a == "start_audit"@ {
        c matches ScannerCall::StartAudit(x) && x.url@ == or_text(i.url, Seq::empty())
            && x.audit_type == i.audit_type && x.scan_configuration_id == i.scan_configuration_id
            && x.resource_pool_id == i.resource_pool_id && x.timeout_seconds == i.timeout_seconds
            && x.stable_seconds == i.stable_seconds && x.include_out_of_scope
            == i.include_out_of_scope
    } else if a == "start_crawl"@ {
        c matches ScannerCall::StartCrawl(x) && x.seed_urls@ == or_list(i.seed_urls)
            && x.scan_configuration_id == i.scan_configuration_id && x.resource_pool_id
            == i.resource_pool_id && x.timeout_seconds == i.timeout_seconds && x.stable_seconds
            == i.stable_seconds && x.include_out_of_scope == i.include_out_of_scope
    } else if a == "stop"@ {
        c matches ScannerCall::Stop(x) && x.job_id@ == or_text(i.job_id, Seq::empty())
    } else if a == "list_issues"@ {
        c matches ScannerCall::ListIssues(x) && x.limit == i.limit && x.cursor == i.cursor
    } else if a == "issue_detail"@ {
        c matches ScannerCall::IssueDetail(x) && x.index == index_or_zero(i.index)
    } else if a == "update_issue"@ {
        c matches ScannerCall::UpdateIssue(x) && x.index == index_or_zero(i.index) && x.status@
            == or_text(i.status, "confirmed"@) && x.severity == i.severity && x.confidence
            == i.confidence && x.notes == i.notes
    } else if a == "report"@ {
        c matches ScannerCall::Report(x) && x.format@ == or_text(i.format, "html"@) && x.path@
            == or_text(i.path, Seq::empty()) && x.issue_indexes == i.issue_indexes
    } else if a == "remove"@ {
        c matches ScannerCall::Remove(x) && x.job_id@ == or_text(i.job_id, Seq::empty())
    } else {
        c matches ScannerCall::TestBcheck(x) && x.script@ == or_text(i.script, Seq::empty())
            && x.request@ == or_text(i.request, Seq::empty()) && x.response == i.response && x.host
            == i.host && x.port == i.port && x.https == i.https
    }
}

/// The tool an action of the scanner suite runs; `None` for an action the
/// suite does not have.
pub fn plan_scanner_action(input: ScannerActionInput) -> (r: Option<ScannerCall>)
    ensures
        match r {
            Some(c) => scanner_action(input.action@) && scanner_call_ok(input, c),
            None => !scanner_action(input.action@),
        },
{
    proof {
        reveal_strlit("start_audit");
        reveal_strlit("start_crawl");
        reveal_strlit("stop");
        reveal_strlit("list_issues");
        reveal_strlit("issue_detail");
        reveal_strlit("update_issue");
        reveal_strlit("report");
        reveal_strlit("remove");
        reveal_strlit("test_bcheck");
        reveal_strlit("");
        assert(""@ =~= Seq::<char>::empty());
    }
    let a = &input.action;
    if is_action(a, "start_audit") {
        Some(
            ScannerCall::StartAudit(
                AuditInput {
                    url: text_or(input.url, ""),
                    audit_type: input.audit_type,
                    scan_configuration_id: input.scan_configuration_id,
                    resource_pool_id: input.resource_pool_id,
                    timeout_seconds: input.timeout_seconds,
                    stable_seconds: input.stable_seconds,
                    include_out_of_scope: input.include_out_of_scope,
                },
            ),
        )
    } else if is_action(a, "start_crawl") {
        Some(
            ScannerCall::StartCrawl(
                CrawlInput {
                    seed_urls: list_or_empty(input.seed_urls),
                    scan_configuration_id: input.scan_configuration_id,
                    resource_pool_id: input.resource_pool_id,
                    timeout_seconds: input.timeout_seconds,
                    stable_seconds: input.stable_seconds,
                    include_out_of_scope: input.include_out_of_scope,
                },
            ),
        )
    } else if is_action(a, "stop") {
        Some(ScannerCall::Stop(JobInput { job_id: text_or(input.job_id, "") }))
    } else if is_action(a, "list_issues") {
        Some(ScannerCall::ListIssues(ScanIssuesInput { limit: input.limit, cursor: input.cursor }))
    } else if is_action(a, "issue_detail") {
        let index = match input.index {
            Some(i) => i,
            None => 0,
        };
        Some(ScannerCall::IssueDetail(ScanIssueDetailInput { index }))
    } else if is_action(a, "update_issue") {
        let index = match input.index {
            Some(i) => i,
            None => 0,
        };
        Some(
            ScannerCall::UpdateIssue(
                ScanIssueUpdateInput {
                    index,
                    status: text_or(input.status, "confirmed"),
                    severity: input.severity,
                    confidence: input.confidence,
                    notes: input.notes,
                },
            ),
        )
    } else if is_action(a, "report") {
        Some(
            ScannerCall::Report(
                GenerateScannerReportInput {
                    format: text_or(input.format, "html"),
                    path: text_or(input.path, ""),
                    issue_indexes: input.issue_indexes,
                },
            ),
        )
    } else if is_action(a, "remove") {
        Some(ScannerCall::Remove(JobInput { job_id: text_or(input.job_id, "") }))
    } else if is_action(a, "test_bcheck") {
        Some(
            ScannerCall::TestBcheck(
                BCheckTestInput {
                    script: text_or(input.script, ""),
                    request: text_or(input.request, ""),
                    response: input.response,
                    host: input.host,
                    port: input.port,
                    https: input.https,
                },
            ),
        )
    } else {
        None
    }
}

// ---------------------------------------------------------------------------
// Proxy
// ---------------------------------------------------------------------------

/// A tool run by the proxy suite.
#[derive(Debug)]
pub enum ProxyCall {
    History(ProxyHistoryInput),
    Detail(ProxyDetailInput),
    Annotate(AnnotateInput),
    Highlight(HighlightInput),
    Extract(ExtractResponseInput),
    WebsocketHistory(ProxyWebSocketHistoryInput),
}

/// The proxy suite's actions.
pub open spec fn proxy_action(a: Seq<char>) -> bool {
    a == "history"@ || a == "detail"@ || a == "annotate"@ || a == "highlight"@ || a == "extract"@
        || a == "websocket_history"@
}

/// `c` is what the proxy suite runs for `i`: an entry index is 0 and texts
/// empty unless given.
pub open spec fn proxy_call_ok(i: ProxyActionInput, c: ProxyCall) -> bool {
    let a = i.action@;
    if a == "history"@ {
        c matches ProxyCall::History(x) && x.limit == i.limit && x.offset == i.offset && x.cursor
            == i.cursor && x.url_filter == i.url_filter && x.method_filter == i.method_filter
            && x.status_filter == i.status_filter && x.has_notes == i.has_notes && x.color
            == i.color && x.include_bodies == i.include_bodies && x.headers_only == i.headers_only
            && x.extract_css == i.extract_css && x.extract_json == i.extract_json
            && x.max_body_length == i.max_body_length
    } else if a == "detail"@ {
        c matches ProxyCall::Detail(x) && x.index == index_or_zero(i.index) && x.include_bodies
            == i.include_bodies && x.headers_only == i.headers_only && x.extract_css
            == i.extract_css && x.extract_json == i.extract_json && x.max_body_length
            == i.max_body_length
    } else if a == "annotate"@ {
        c matches ProxyCall::Annotate(x) && x.index == index_or_zero(i.index) && x.note@ == or_text(
            i.notes,
            Seq::empty(),
        )
    } else if a == "highlight"@ {
        c matches ProxyCall::Highlight(x) && x.index == index_or_zero(i.index) && x.color == i.color
    } else if a == "extract"@ {
        c matches ProxyCall::Extract(x) && x.index == index_or_zero(i.index) && x.regex@ == or_text(
            i.regex,
            Seq::empty(),
        ) && x.limit == (match i.limit {
            Some(l) => Some(l as usize),
            None => None,
        })
    } else {
        c matches ProxyCall::WebsocketHistory(x) && x.limit == i.limit && x.cursor == i.cursor
            && x.include_bodies == i.include_bodies && x.max_body_length == i.max_body_length
    }
}

/// The tool an action of the proxy suite runs; `None` for an action the
/// suite does not have.
pub fn plan_proxy_action(input: ProxyActionInput) -> (r: Option<ProxyCall>)
    ensures
        match r {
            Some(c) => proxy_action(input.action@) && proxy_call_ok(input, c),
            None => !proxy_action(input.action@),
        },
{
    proof {
        reveal_strlit("history");
        reveal_strlit("detail");
        reveal_strlit("annotate");
        reveal_strlit("highlight");
        reveal_strlit("extract");
        reveal_strlit("websocket_history");
        reveal_strlit("");
        assert(""@ =~= Seq::<char>::empty());
    }
    let index = match input.index {
        Some(i) => i,
        None => 0,
    };
    let a = &input.action;
    if is_action(a, "history") {
        Some(
            ProxyCall::History(
                ProxyHistoryInput {
                    limit: input.limit,
                    offset: input.offset,
                    cursor: input.cursor,
                    url_filter: input.url_filter,
                    method_filter: input.method_filter,
                    status_filter: input.status_filter,
                    has_notes: input.has_notes,
                    color: input.color,
                    include_bodies: input.include_bodies,
                    headers_only: input.headers_only,
                    extract_css: input.extract_css,
                    extract_json: input.extract_json,
                    max_body_length: input.max_body_length,
                },
            ),
        )
    } else if is_action(a, "detail") {
        Some(
            ProxyCall::Detail(
                ProxyDetailInput {
                    index,
                    include_bodies: input.include_bodies,
                    headers_only: input.headers_only,
                    extract_css: input.extract_css,
                    extract_json: input.extract_json,
                    max_body_length: input.max_body_length,
                },
            ),
        )
    } else if is_action(a, "annotate") {
        Some(ProxyCall::Annotate(AnnotateInput { index, note: text_or(input.notes, "") }))
    } else if is_action(a, "highlight") {
        Some(ProxyCall::Highlight(HighlightInput { index, color: input.color }))
    } else if is_action(a, "extract") {
        let limit: Option<usize> = match input.limit {
            Some(l) => Some(l as usize),
            None => None,
        };
        Some(ProxyCall::Extract(ExtractResponseInput { index, regex: text_or(input.regex, ""), limit }))
    } else if is_action(a, "websocket_history") {
        Some(
            ProxyCall::WebsocketHistory(
                ProxyWebSocketHistoryInput {
                    limit: input.limit,
                    cursor: input.cursor,
                    include_bodies: input.include_bodies,
                    max_body_length: input.max_body_length,
                },
            ),
        )
    } else {
        None
    }
}

// ---------------------------------------------------------------------------
// HTTP
// ---------------------------------------------------------------------------

/// A tool run by the HTTP suite.  A request for Repeater still needs
/// `repeater_input_from_http_action` to be built from a URL when it names
/// none itself.
#[derive(Debug)]
pub enum HttpCall {
    Send(SendRequestInput),
    SendBatch(SendRequestsInput),
    Convert(ConvertRequestInput),
    Export(ExportRequestInput),
    SendToRepeater(SendToRepeaterInput),
}

/// `c` is what the HTTP suite runs for `i`: texts empty and the batch empty
/// unless given.
pub open spec fn http_call_ok(i: HttpActionInput, c: HttpCall) -> bool {
    match i.action {
        HttpAction::Send => c matches HttpCall::Send(x) && x.method == i.method && x.url@ == or_text(
            i.url,
            Seq::empty(),
        ) && x.body == i.body && x.headers == i.headers && x.headers_only == i.headers_only
            && x.extract_css == i.extract_css && x.extract_json == i.extract_json
            && x.max_body_length == i.max_body_length,
        HttpAction::SendBatch => c matches HttpCall::SendBatch(x) && x.requests@ == (match i.requests {
            Some(v) => v@,
            None => Seq::empty(),
        }),
        HttpAction::Convert => c matches HttpCall::Convert(x) && x.request@ == or_text(
            i.request,
            Seq::empty(),
        ) && x.convert_to == i.convert_to,
        HttpAction::Export => c matches HttpCall::Export(x) && x.request@ == or_text(
            i.request,
            Seq::empty(),
        ) && x.host == i.host && x.format == i.format && x.https == i.https,
        HttpAction::SendToRepeater => c matches HttpCall::SendToRepeater(x) && x.request@ == or_text(
            i.request,
            Seq::empty(),
        ) && x.host@ == or_text(i.host, Seq::empty()) && x.port == i.port && x.https == i.https
            && x.tab_name == i.tab_name,
    }
}

/// The tool an action of the HTTP suite runs.
pub fn plan_http_action(input: HttpActionInput) -> (r: HttpCall)
    ensures
        http_call_ok(input, r),
{
    proof {
        reveal_strlit("");
        assert(""@ =~= Seq::<char>::empty());
    }
    match input.action {
        HttpAction::Send => HttpCall::Send(
            SendRequestInput {
                method: input.method,
                url: text_or(input.url, ""),
                body: input.body,
                headers: input.headers,
                headers_only: input.headers_only,
                extract_css: input.extract_css,
                extract_json: input.extract_json,
                max_body_length: input.max_body_length,
            },
        ),
        HttpAction::SendBatch => HttpCall::SendBatch(
            SendRequestsInput {
                requests: match input.requests {
                    Some(v) => v,
                    None => Vec::new(),
                },
            },
        ),
        HttpAction::Convert => HttpCall::Convert(
            ConvertRequestInput { request: text_or(input.request, ""), convert_to: input.convert_to },
        ),
        HttpAction::Export => HttpCall::Export(
            ExportRequestInput {
                request: text_or(input.request, ""),
                host: input.host,
                format: input.format,
                https: input.https,
            },
        ),
        HttpAction::SendToRepeater => HttpCall::SendToRepeater(
            SendToRepeaterInput {
                request: text_or(input.request, ""),
                host: text_or(input.host, ""),
                port: input.port,
                https: input.https,
                tab_name: input.tab_name,
            },
        ),
    }
}

// ---------------------------------------------------------------------------
// Target, Collaborator, diff
// ---------------------------------------------------------------------------

/// A tool run by the target suite.
#[derive(Debug)]
pub enum TargetCall {
    GetScope(ScopeCheckInput),
    AddScope(ScopeMutationInput),
    RemoveScope(ScopeMutationInput),
    Info(TargetInfoInput),
    Sitemap(SitemapInput),
}

pub open spec fn target_action(a: Seq<char>) -> bool {
    a == "get_scope"@ || a == "add_scope"@ || a == "remove_scope"@ || a == "info"@ || a
        == "sitemap"@
}

/// `c` is what the target suite runs for `i`: a scope URL is empty unless
/// given; `info` reads the URL prefix.
pub open spec fn target_call_ok(i: TargetActionInput, c: TargetCall) -> bool {
    let a = i.action@;
    if a == "get_scope"@ {
        c matches TargetCall::GetScope(x) && x.url@ == or_text(i.url, Seq::empty())
    } else if a == "add_scope"@ {
        c matches TargetCall::AddScope(x) && x.url@ == or_text(i.url, Seq::empty())
    } else if a == "remove_scope"@ {
        c matches TargetCall::RemoveScope(x) && x.url@ == or_text(i.url, Seq::empty())
    } else if a == "info"@ {
        c matches TargetCall::Info(x) && x.url == i.url_prefix && x.limit == i.limit
    } else {
        c matches TargetCall::Sitemap(x) && x.url_prefix == i.url_prefix && x.limit == i.limit
            && x.cursor == i.cursor
    }
}

pub fn plan_target_action(input: TargetActionInput) -> (r: Option<TargetCall>)
    ensures
        match r {
            Some(c) => target_action(input.action@) && target_call_ok(input, c),
            None => !target_action(input.action@),
        },
{
    proof {
        reveal_strlit("get_scope");
        reveal_strlit("add_scope");
        reveal_strlit("remove_scope");
        reveal_strlit("info");
        reveal_strlit("sitemap");
        reveal_strlit("");
        assert(""@ =~= Seq::<char>::empty());
    }
    let a = &input.action;
    if is_action(a, "get_scope") {
        Some(TargetCall::GetScope(ScopeCheckInput { url: text_or(input.url, "") }))
    } else if is_action(a, "add_scope") {
        Some(TargetCall::AddScope(ScopeMutationInput { url: text_or(input.url, "") }))
    } else if is_action(a, "remove_scope") {
        Some(TargetCall::RemoveScope(ScopeMutationInput { url: text_or(input.url, "") }))
    } else if is_action(a, "info") {
        Some(TargetCall::Info(TargetInfoInput { url: input.url_prefix, limit: input.limit }))
    } else if is_action(a, "sitemap") {
        Some(
            TargetCall::Sitemap(
                SitemapInput { url_prefix: input.url_prefix, limit: input.limit, cursor: input.cursor },
            ),
        )
    } else {
        None
    }
}

/// A tool run by the Collaborator suite: correlating generates payloads
/// as generating does.
#[derive(Debug)]
pub enum CollaboratorCall {
    Generate(CollaboratorGenerateInput),
    Poll(CollaboratorPollInput),
}

pub fn plan_collaborator_action(input: CollaboratorActionInput) -> (r: Option<CollaboratorCall>)
    ensures
        (input.action@ == "generate"@ || input.action@ == "correlate"@) ==> (r matches Some(
            CollaboratorCall::Generate(x),
        ) && x.count == input.count && x.target_url == input.target_url && x.injection_point
            == input.injection_point),
        input.action@ == "poll"@ ==> (r matches Some(CollaboratorCall::Poll(x)) && x.limit
            == input.limit && x.cursor == input.cursor),
        !(input.action@ == "generate"@ || input.action@ == "correlate"@ || input.action@
            == "poll"@) ==> r is None,
{
    proof {
        reveal_strlit("generate");
        reveal_strlit("correlate");
        reveal_strlit("poll");
        assert("generate"@.len() == 8 && "correlate"@.len() == 9 && "poll"@.len() == 4);
    }
    let a = &input.action;
    if is_action(a, "generate") || is_action(a, "correlate") {
        Some(
            CollaboratorCall::Generate(
                CollaboratorGenerateInput {
                    count: input.count,
                    target_url: input.target_url,
                    injection_point: input.injection_point,
                },
            ),
        )
    } else if is_action(a, "poll") {
        Some(CollaboratorCall::Poll(CollaboratorPollInput { limit: input.limit, cursor: input.cursor }))
    } else {
        None
    }
}

/// A tool run by the diff suite.
#[derive(Debug)]
pub enum DiffCall {
    DiffResponses(DiffResponsesInput),
    CompareExchanges(SendToComparerInput),
}

pub open spec fn first_given(a: Option<String>, b: Option<String>) -> Seq<char> {
    match a {
        Some(s) => s@,
        None => or_text(b, Seq::empty()),
    }
}

/// Comparing exchanges takes `first` (else `response_a`) and `second` (else
/// `response_b`).
pub fn plan_diff_action(input: DiffActionInput) -> (r: Option<DiffCall>)
    ensures
        input.action@ == "diff_responses"@ ==> (r matches Some(DiffCall::DiffResponses(x))
            && x.response_a == input.response_a && x.response_b == input.response_b && x.index_a
            == input.index_a && x.index_b == input.index_b),
        input.action@ == "compare_exchanges"@ ==> (r matches Some(DiffCall::CompareExchanges(x))
            && x.first@ == first_given(input.first, input.response_a) && x.second@ == first_given(
            input.second,
            input.response_b,
        )),
        !(input.action@ == "diff_responses"@ || input.action@ == "compare_exchanges"@) ==> r is None,
{
    proof {
        reveal_strlit("diff_responses");
        reveal_strlit("compare_exchanges");
        assert("diff_responses"@.len() == 14 && "compare_exchanges"@.len() == 17);
        reveal_strlit("");
        assert(""@ =~= Seq::<char>::empty());
    }
    let a = &input.action;
    if is_action(a, "diff_responses") {
        Some(
            DiffCall::DiffResponses(
                DiffResponsesInput {
                    response_a: input.response_a,
                    response_b: input.response_b,
                    index_a: input.index_a,
                    index_b: input.index_b,
                },
            ),
        )
    } else if is_action(a, "compare_exchanges") {
        let first = match input.first {
            Some(f) => f,
            None => text_or(input.response_a, ""),
        };
        let second = match input.second {
            Some(f) => f,
            None => text_or(input.response_b, ""),
        };
        Some(DiffCall::CompareExchanges(SendToComparerInput { first, second }))
    } else {
        None
    }
}

// ---------------------------------------------------------------------------
// Scan configurations
// ---------------------------------------------------------------------------

/// A tool run by the scan-configuration suite: an upsert with an id
/// updates, one without creates.
#[derive(Debug)]
pub enum ScanConfigCall {
    ListConfigs,
    GetConfig(ScanConfigurationIdInput),
    CreateConfig(ScanConfigurationUpsertInput),
    UpdateConfig(ScanConfigurationUpsertInput),
    DeleteConfig(ScanConfigurationIdInput),
    ListPools,
    GetPool(ScanResourcePoolIdInput),
    CreatePool(ScanResourcePoolUpsertInput),
    UpdatePool(ScanResourcePoolUpsertInput),
    DeletePool(ScanResourcePoolIdInput),
}

pub open spec fn scan_config_action(a: Seq<char>) -> bool {
    a == "list_configs"@ || a == "get_config"@ || a == "upsert_config"@ || a == "delete_config"@
        || a == "list_pools"@ || a == "get_pool"@ || a == "upsert_pool"@ || a == "delete_pool"@
}

pub open spec fn config_upsert_ok(i: ScanConfigActionInput, x: ScanConfigurationUpsertInput) -> bool {
    x.id == i.id && x.name@ == or_text(i.name, Seq::empty()) && x.scan_type@ == or_text(
        i.scan_type,
        "audit"@,
    ) && x.audit_type == i.audit_type && x.include_out_of_scope == i.include_out_of_scope
        && x.timeout_seconds == i.timeout_seconds && x.stable_seconds == i.stable_seconds
        && x.resource_pool_id == i.resource_pool_id
}

pub open spec fn pool_upsert_ok(i: ScanConfigActionInput, x: ScanResourcePoolUpsertInput) -> bool {
    x.id == i.id && x.name@ == or_text(i.name, Seq::empty()) && x.kind@ == or_text(
        i.kind,
        "custom"@,
    ) && x.existing_pool_name == i.existing_pool_name && x.concurrent_request_limit
        == i.concurrent_request_limit && x.throttle_millis == i.throttle_millis && x.max_retries
        == i.max_retries
}

/// `c` is what the scan-configuration suite runs for `i`: ids are empty,
/// a configuration scans `audit` and a pool is `custom` unless given.
pub open spec fn scan_config_call_ok(i: ScanConfigActionInput, c: ScanConfigCall) -> bool {
    let a = i.action@;
    if a == "list_configs"@ {
        c is ListConfigs
    } else if a == "get_config"@ {
        c matches ScanConfigCall::GetConfig(x) && x.id@ == or_text(i.id, Seq::empty())
    } else if a == "upsert_config"@ {
        if i.id is Some {
            c matches ScanConfigCall::UpdateConfig(x) && config_upsert_ok(i, x)
        } else {
            c matches ScanConfigCall::CreateConfig(x) && config_upsert_ok(i, x)
        }
    } else if a == "delete_config"@ {
        c matches ScanConfigCall::DeleteConfig(x) && x.id@ == or_text(i.id, Seq::empty())
    } else if a == "list_pools"@ {
        c is ListPools
    } else if a == "get_pool"@ {
        c matches ScanConfigCall::GetPool(x) && x.id@ == or_text(i.id, Seq::empty())
    } else if a == "upsert_pool"@ {
        if i.id is Some {
            c matches ScanConfigCall::UpdatePool(x) && pool_upsert_ok(i, x)
        } else {
            c matches ScanConfigCall::CreatePool(x) && pool_upsert_ok(i, x)
        }
    } else {
        c matches ScanConfigCall::DeletePool(x) && x.id@ == or_text(i.id, Seq::empty())
    }
}

pub fn plan_scan_config_action(input: ScanConfigActionInput) -> (r: Option<ScanConfigCall>)
    ensures
        match r {
            Some(c) => scan_config_action(input.action@) && scan_config_call_ok(input, c),
            None => !scan_config_action(input.action@),
        },
{
    proof {
        reveal_strlit("list_configs");
        reveal_strlit("get_config");
        reveal_strlit("upsert_config");
        reveal_strlit("delete_config");
        reveal_strlit("list_pools");
        reveal_strlit("get_pool");
        reveal_strlit("upsert_pool");
        reveal_strlit("delete_pool");
        reveal_strlit("");
        assert(""@ =~= Seq::<char>::empty());
    }
    let a = &input.action;
    if is_action(a, "list_configs") {
        Some(ScanConfigCall::ListConfigs)
    } else if is_action(a, "get_config") {
        Some(ScanConfigCall::GetConfig(ScanConfigurationIdInput { id: text_or(input.id, "") }))
    } else if is_action(a, "upsert_config") {
        let update = input.id.is_some();
        let upsert = ScanConfigurationUpsertInput {
            id: input.id,
            name: text_or(input.name, ""),
            scan_type: text_or(input.scan_type, "audit"),
            audit_type: input.audit_type,
            include_out_of_scope: input.include_out_of_scope,
            timeout_seconds: input.timeout_seconds,
            stable_seconds: input.stable_seconds,
            resource_pool_id: input.resource_pool_id,
        };
        if update {
            Some(ScanConfigCall::UpdateConfig(upsert))
        } else {
            Some(ScanConfigCall::CreateConfig(upsert))
        }
    } else if is_action(a, "delete_config") {
        Some(ScanConfigCall::DeleteConfig(ScanConfigurationIdInput { id: text_or(input.id, "") }))
    } else if is_action(a, "list_pools") {
        Some(ScanConfigCall::ListPools)
    } else if is_action(a, "get_pool") {
        Some(ScanConfigCall::GetPool(ScanResourcePoolIdInput { id: text_or(input.id, "") }))
    } else if is_action(a, "upsert_pool") {
        let update = input.id.is_some();
        let upsert = ScanResourcePoolUpsertInput {
            id: input.id,
            name: text_or(input.name, ""),
            kind: text_or(input.kind, "custom"),
            existing_pool_name: input.existing_pool_name,
            concurrent_request_limit: input.concurrent_request_limit,
            throttle_millis: input.throttle_millis,
            max_retries: input.max_retries,
        };
        if update {
            Some(ScanConfigCall::UpdatePool(upsert))
        } else {
            Some(ScanConfigCall::CreatePool(upsert))
        }
    } else if is_action(a, "delete_pool") {
        Some(ScanConfigCall::DeletePool(ScanResourcePoolIdInput { id: text_or(input.id, "") }))
    } else {
        None
    }
}

// ---------------------------------------------------------------------------
// WebSockets
// ---------------------------------------------------------------------------

/// A tool run by the WebSocket suite.
#[derive(Debug)]
pub enum WebSocketCall {
    Create(WebSocketCreateInput),
    SendText(WebSocketTextInput),
    SendBinary(WebSocketBinaryInput),
    History(ManagedWebSocketHistoryInput),
    Close(WebSocketIdInput),
    List,
}

pub open spec fn websocket_action(a: Seq<char>) -> bool {
    a == "create"@ || a == "send_text"@ || a == "send_binary"@ || a == "history"@ || a
        == "close"@ || a == "list"@
}

/// `c` is what the WebSocket suite runs for `i`: missing host, id, text and
/// data are empty; a history read passes no body options.
pub open spec fn websocket_call_ok(i: WebSocketActionInput, c: WebSocketCall) -> bool {
    let a = i.action@;
    if a == "create"@ {
        c matches WebSocketCall::Create(x) && x.host@ == or_text(i.host, Seq::empty()) && x.port
            == i.port && x.https == i.https && x.path == i.path
    } else if a == "send_text"@ {
        c matches WebSocketCall::SendText(x) && x.id@ == or_text(i.id, Seq::empty()) && x.text@
            == or_text(i.text, Seq::empty())
    } else if a == "send_binary"@ {
        c matches WebSocketCall::SendBinary(x) && x.id@ == or_text(i.id, Seq::empty()) && x.data@
            == or_text(i.data, Seq::empty())
    } else if a == "history"@ {
        c matches WebSocketCall::History(x) && x.id == i.id && x.limit == i.limit && x.cursor
            == i.cursor && x.include_bodies is None && x.max_body_length is None
    } else if a == "close"@ {
        c matches WebSocketCall::Close(x) && x.id@ == or_text(i.id, Seq::empty())
    } else {
        c is List
    }
}

pub fn plan_websocket_action(input: WebSocketActionInput) -> (r: Option<WebSocketCall>)
    ensures
        match r {
            Some(c) => websocket_action(input.action@) && websocket_call_ok(input, c),
            None => !websocket_action(input.action@),
        },
{
    proof {
        reveal_strlit("create");
        reveal_strlit("send_text");
        reveal_strlit("send_binary");
        reveal_strlit("history");
        reveal_strlit("close");
        reveal_strlit("list");
        reveal_strlit("");
        assert(""@ =~= Seq::<char>::empty());
    }
    let a = &input.action;
    if is_action(a, "create") {
        Some(
            WebSocketCall::Create(
                WebSocketCreateInput {
                    host: text_or(input.host, ""),
                    port: input.port,
                    https: input.https,
                    path: input.path,
                },
            ),
        )
    } else if is_action(a, "send_text") {
        Some(
            WebSocketCall::SendText(
                WebSocketTextInput { id: text_or(input.id, ""), text: text_or(input.text, "") },
            ),
        )
    } else if is_action(a, "send_binary") {
        Some(
            WebSocketCall::SendBinary(
                WebSocketBinaryInput { id: text_or(input.id, ""), data: text_or(input.data, "") },
            ),
        )
    } else if is_action(a, "history") {
        Some(
            WebSocketCall::History(
                ManagedWebSocketHistoryInput {
                    id: input.id,
                    limit: input.limit,
                    cursor: input.cursor,
                    include_bodies: None,
                    max_body_length: None,
                },
            ),
        )
    } else if is_action(a, "close") {
        Some(WebSocketCall::Close(WebSocketIdInput { id: text_or(input.id, "") }))
    } else if is_action(a, "list") {
        Some(WebSocketCall::List)
    } else {
        None
    }
}

// ---------------------------------------------------------------------------
// Session rules and macros
// ---------------------------------------------------------------------------

/// A tool run by the session suite: an upserted rule with an id updates,
/// one without creates.
#[derive(Debug)]
pub enum SessionCall {
    ListRules,
    GetRule(SessionRuleIdInput),
    CreateRule(SessionRuleUpsertInput),
    UpdateRule(SessionRuleUpsertInput),
    DeleteRule(SessionRuleIdInput),
    RunMacro(MacroDescriptionInput),
    CreateMacro(CreateMacroInput),
    ListMacros,
    RemoveMacro(MacroDescriptionInput),
}

pub open spec fn session_action(a: Seq<char>) -> bool {
    a == "list_rules"@ || a == "get_rule"@ || a == "upsert_rule"@ || a == "delete_rule"@ || a
        == "run_macro"@ || a == "upsert_macro"@ || a == "list_macros"@ || a == "delete_macro"@
}

pub open spec fn rule_upsert_ok(i: SessionActionInput, x: SessionRuleUpsertInput) -> bool {
    x.id == i.id && x.description == i.description && x.action_type == i.action_type && x.find
        == i.find && x.replace == i.replace && x.header_name == i.header_name && x.parameter_name
        == i.parameter_name && x.macro_description == i.macro_description && x.url_contains
        == i.url_contains && x.tools == i.tools && x.enabled == i.enabled
}

pub open spec fn or_items(o: Option<Vec<MacroItemInput>>) -> Seq<MacroItemInput> {
    match o {
        Some(v) => v@,
        None => Seq::empty(),
    }
}

/// `c` is what the session suite runs for `i`: a missing id or macro
/// description is empty, missing macro items are none.
pub open spec fn session_call_ok(i: SessionActionInput, c: SessionCall) -> bool {
    let a = i.action@;
    if a == "list_rules"@ {
        c is ListRules
    } else if a == "get_rule"@ {
        c matches SessionCall::GetRule(x) && x.id@ == or_text(i.id, Seq::empty())
    } else if a == "upsert_rule"@ {
        if i.id is Some {
            c matches SessionCall::UpdateRule(x) && rule_upsert_ok(i, x)
        } else {
            c matches SessionCall::CreateRule(x) && rule_upsert_ok(i, x)
        }
    } else if a == "delete_rule"@ {
        c matches SessionCall::DeleteRule(x) && x.id@ == or_text(i.id, Seq::empty())
    } else if a == "run_macro"@ {
        c matches SessionCall::RunMacro(x) && x.description@ == or_text(i.description, Seq::empty())
    } else if a == "upsert_macro"@ {
        c matches SessionCall::CreateMacro(x) && x.description@ == or_text(
            i.description,
            Seq::empty(),
        ) && x.serial_number == i.serial_number && x.items@ == or_items(i.items)
    } else if a == "list_macros"@ {
        c is ListMacros
    } else {
        c matches SessionCall::RemoveMacro(x) && x.description@ == or_text(
            i.description,
            Seq::empty(),
        )
    }
}

fn items_or_empty(o: Option<Vec<MacroItemInput>>) -> (r: Vec<MacroItemInput>)
    ensures
        r@ == or_items(o),
{
    match o {
        Some(v) => v,
        None => Vec::new(),
    }
}

pub fn plan_session_action(input: SessionActionInput) -> (r: Option<SessionCall>)
    ensures
        match r {
            Some(c) => session_action(input.action@) && session_call_ok(input, c),
            None => !session_action(input.action@),
        },
{
    proof {
        reveal_strlit("list_rules");
        reveal_strlit("get_rule");
        reveal_strlit("upsert_rule");
        reveal_strlit("delete_rule");
        reveal_strlit("run_macro");
        reveal_strlit("upsert_macro");
        reveal_strlit("list_macros");
        reveal_strlit("delete_macro");
        reveal_strlit("");
        assert(""@ =~= Seq::<char>::empty());
    }
    let a = &input.action;
    if is_action(a, "list_rules") {
        Some(SessionCall::ListRules)
    } else if is_action(a, "get_rule") {
        Some(SessionCall::GetRule(SessionRuleIdInput { id: text_or(input.id, "") }))
    } else if is_action(a, "upsert_rule") {
        let update = input.id.is_some();
        let upsert = SessionRuleUpsertInput {
            id: input.id,
            description: input.description,
            action_type: input.action_type,
            find: input.find,
            replace: input.replace,
            header_name: input.header_name,
            parameter_name: input.parameter_name,
            macro_description: input.macro_description,
            url_contains: input.url_contains,
            tools: input.tools,
            enabled: input.enabled,
        };
        if update {
            Some(SessionCall::UpdateRule(upsert))
        } else {
            Some(SessionCall::CreateRule(upsert))
        }
    } else if is_action(a, "delete_rule") {
        Some(SessionCall::DeleteRule(SessionRuleIdInput { id: text_or(input.id, "") }))
    } else if is_action(a, "run_macro") {
        Some(
            SessionCall::RunMacro(
                MacroDescriptionInput { description: text_or(input.description, "") },
            ),
        )
    } else if is_action(a, "upsert_macro") {
        Some(
            SessionCall::CreateMacro(
                CreateMacroInput {
                    description: text_or(input.description, ""),
                    serial_number: input.serial_number,
                    items: items_or_empty(input.items),
                },
            ),
        )
    } else if is_action(a, "list_macros") {
        Some(SessionCall::ListMacros)
    } else if is_action(a, "delete_macro") {
        Some(
            SessionCall::RemoveMacro(
                MacroDescriptionInput { description: text_or(input.description, "") },
            ),
        )
    } else {
        None
    }
}

// ---------------------------------------------------------------------------
// Logger
// ---------------------------------------------------------------------------

/// A tool run by the logger suite.
#[derive(Debug)]
pub enum LoggerCall {
    History(LoggerHistoryInput),
    Detail(LoggerDetailInput),
    Clear(LoggerClearInput),
}

pub open spec fn logger_action(a: Seq<char>) -> bool {
    a == "query"@ || a == "detail"@ || a == "clear"@
}

/// `c` is what the logger suite runs for `i`: the query and detail options
/// are passed on, a missing detail index is 0.
pub open spec fn logger_call_ok(i: LoggerActionInput, c: LoggerCall) -> bool {
    let a = i.action@;
    if a == "query"@ {
        c matches LoggerCall::History(x) && x.limit == i.limit && x.offset == i.offset && x.cursor
            == i.cursor && x.source_filter == i.source_filter && x.url_filter == i.url_filter
            && x.method_filter == i.method_filter && x.status_filter == i.status_filter
            && x.has_notes == i.has_notes && x.color == i.color && x.include_bodies
            == i.include_bodies && x.headers_only == i.headers_only && x.extract_css
            == i.extract_css && x.extract_json == i.extract_json && x.max_body_length
            == i.max_body_length
    } else if a == "detail"@ {
        c matches LoggerCall::Detail(x) && x.index == (match i.index {
            Some(n) => n,
            None => 0u32,
        }) && x.include_bodies == i.include_bodies && x.headers_only == i.headers_only
            && x.extract_css == i.extract_css && x.extract_json == i.extract_json
            && x.max_body_length == i.max_body_length
    } else {
        c is Clear
    }
}

pub fn plan_logger_action(input: LoggerActionInput) -> (r: Option<LoggerCall>)
    ensures
        match r {
            Some(c) => logger_action(input.action@) && logger_call_ok(input, c),
            None => !logger_action(input.action@),
        },
{
    proof {
        reveal_strlit("query");
        reveal_strlit("detail");
        reveal_strlit("clear");
    }
    let a = &input.action;
    if is_action(a, "query") {
        Some(
            LoggerCall::History(
                LoggerHistoryInput {
                    limit: input.limit,
                    offset: input.offset,
                    cursor: input.cursor,
                    source_filter: input.source_filter,
                    url_filter: input.url_filter,
                    method_filter: input.method_filter,
                    status_filter: input.status_filter,
                    has_notes: input.has_notes,
                    color: input.color,
                    include_bodies: input.include_bodies,
                    headers_only: input.headers_only,
                    extract_css: input.extract_css,
                    extract_json: input.extract_json,
                    max_body_length: input.max_body_length,
                },
            ),
        )
    } else if is_action(a, "detail") {
        let index: u32 = match input.index {
            Some(n) => n,
            None => 0,
        };
        Some(
            LoggerCall::Detail(
                LoggerDetailInput {
                    index,
                    include_bodies: input.include_bodies,
                    headers_only: input.headers_only,
                    extract_css: input.extract_css,
                    extract_json: input.extract_json,
                    max_body_length: input.max_body_length,
                },
            ),
        )
    } else if is_action(a, "clear") {
        Some(LoggerCall::Clear(LoggerClearInput {  }))
    } else {
        None
    }
}

// ---------------------------------------------------------------------------
// Organizer
// ---------------------------------------------------------------------------

/// A tool run by the organizer suite.
#[derive(Debug)]
pub enum OrganizerCall {
    Send(OrganizerSendInput),
    List(OrganizerListInput),
}

pub open spec fn organizer_action(a: Seq<char>) -> bool {
    a == "add"@ || a == "list"@
}

/// `c` is what the organizer suite runs for `i`: a missing request or host
/// is empty.
pub open spec fn organizer_call_ok(i: OrganizerActionInput, c: OrganizerCall) -> bool {
    if i.action@ == "add"@ {
        c matches OrganizerCall::Send(x) && x.request@ == or_text(i.request, Seq::empty())
            && x.response == i.response && x.host@ == or_text(i.host, Seq::empty()) && x.port
            == i.port && x.https == i.https && x.notes == i.notes && x.highlight == i.highlight
    } else {
        c matches OrganizerCall::List(x) && x.limit == i.limit && x.cursor == i.cursor
            && x.status_filter == i.status_filter && x.url_filter == i.url_filter
    }
}

pub fn plan_organizer_action(input: OrganizerActionInput) -> (r: Option<OrganizerCall>)
    ensures
        match r {
            Some(c) => organizer_action(input.action@) && organizer_call_ok(input, c),
            None => !organizer_action(input.action@),
        },
{
    proof {
        reveal_strlit("add");
        reveal_strlit("list");
        reveal_strlit("");
        assert(""@ =~= Seq::<char>::empty());
    }
    let a = &input.action;
    if is_action(a, "add") {
        Some(
            OrganizerCall::Send(
                OrganizerSendInput {
                    request: text_or(input.request, ""),
                    response: input.response,
                    host: text_or(input.host, ""),
                    port: input.port,
                    https: input.https,
                    notes: input.notes,
                    highlight: input.highlight,
                },
            ),
        )
    } else if is_action(a, "list") {
        Some(
            OrganizerCall::List(
                OrganizerListInput {
                    limit: input.limit,
                    cursor: input.cursor,
                    status_filter: input.status_filter,
                    url_filter: input.url_filter,
                },
            ),
        )
    } else {
        None
    }
}

// ---------------------------------------------------------------------------
// Settings
// ---------------------------------------------------------------------------

/// A tool run by the settings suite.
#[derive(Debug)]
pub enum SettingsCall {
    GetProxySettings,
    UpdateProxySettings(ProxySettingsUpdateInput),
    ExportConfig,
    InspectConfig(InspectConfigInput),
    ImportConfig(ImportConfigInput),
    InterceptState,
    SetInterceptState(SetInterceptStateInput),
    ProxyInterceptConfig,
    UpdateProxyInterceptConfig(ProxyInterceptConfigInput),
    RegisterHttpHandler(RegisterHttpHandlerInput),
    RemoveHttpHandler,
    RegisterProxyRule(RegisterProxyRuleInput),
    ListProxyRules,
    RemoveProxyRule(RemoveProxyRuleInput),
}

/// A proxy rule needs a URL fragment that is not blank.
pub open spec fn url_fragment_given(u: Option<String>) -> bool {
    u is Some && trim_seq(u->0@).len() > 0
}

/// The message with which `register_proxy_rule` refuses a missing or blank
/// `url_contains`.
pub open spec fn url_contains_required() -> Seq<char> {
    "`url_contains` is required and must not be empty"@
}

/// `c` is what the settings suite runs for `i`: a proxy-settings update is
/// an `intercept_toggle` unless it names its operation, a missing intercept
/// state is off, a missing config is empty, and an intercept-config update
/// sets only the master, request and response switches.
pub open spec fn settings_call_ok(i: SettingsActionInput, c: SettingsCall) -> bool {
    match i.action {
        SettingsAction::GetProxySettings => c is GetProxySettings,
        SettingsAction::UpdateProxySettings => c matches SettingsCall::UpdateProxySettings(x)
            && x.operation@ == or_text(i.operation, "intercept_toggle"@) && x.port == i.port
            && x.running == i.running && x.listen_mode == i.listen_mode
            && x.listen_specific_address == i.listen_specific_address && x.certificate_mode
            == i.certificate_mode && x.enable_http2 == i.enable_http2
            && x.support_invisible_proxying == i.support_invisible_proxying && x.target == i.target
            && x.mode == i.mode && x.script == i.script && x.script_id == i.script_id
            && x.script_name == i.script_name && x.kind == i.kind && x.index == i.index && x.rule
            == i.rule && x.master_enabled == i.master_enabled && x.request_enabled
            == i.request_enabled && x.response_enabled == i.response_enabled,
        SettingsAction::ExportConfig => c is ExportConfig,
        SettingsAction::InspectConfig => c matches SettingsCall::InspectConfig(x) && x.paths
            == i.paths,
        SettingsAction::ImportConfig => c matches SettingsCall::ImportConfig(x) && x.config@
            == or_text(i.config, Seq::empty()),
        SettingsAction::InterceptState => c is InterceptState,
        SettingsAction::SetInterceptState => c matches SettingsCall::SetInterceptState(x)
            && x.enabled == (i.enabled == Some(true)),
        SettingsAction::ProxyInterceptConfig => c is ProxyInterceptConfig,
        SettingsAction::UpdateProxyInterceptConfig => c matches SettingsCall::UpdateProxyInterceptConfig(
            x,
        ) && x.master_intercept_enabled == i.master_enabled && x.request_do_intercept
            == i.request_enabled && x.response_do_intercept == i.response_enabled
            && x.request_auto_content_length is None && x.request_fix_missing_new_lines is None
            && x.request_rules is None && x.replace_request_rules is None
            && x.response_auto_content_length is None && x.response_rules is None
            && x.replace_response_rules is None && x.response_unhide_hidden_fields is None
            && x.response_enable_disabled_fields is None
            && x.response_remove_input_length_limits is None
            && x.response_remove_javascript_validation is None
            && x.response_remove_all_javascript is None && x.websocket_client_to_server is None
            && x.websocket_server_to_client is None && x.websocket_in_scope_only is None,
        SettingsAction::RegisterHttpHandler => c matches SettingsCall::RegisterHttpHandler(x)
            && x.header_name == i.header_name && x.header_value == i.header_value && x.match_text
            == i.match_text && x.replace == i.replace,
        SettingsAction::RemoveHttpHandler => c is RemoveHttpHandler,
        SettingsAction::RegisterProxyRule => c matches SettingsCall::RegisterProxyRule(x) && x.id
            == i.id && i.url_contains == Some(x.url_contains) && x.phase == i.phase
            && x.rule_action == i.rule_action && x.match_text == i.match_text && x.replace
            == i.replace && x.header_name == i.header_name && x.header_value == i.header_value
            && x.enabled == i.enabled,
        SettingsAction::ListProxyRules => c is ListProxyRules,
        SettingsAction::RemoveProxyRule => c matches SettingsCall::RemoveProxyRule(x) && x.id
            == i.id,
    }
}

/// The tool a settings action runs; refused, with its message, only for a
/// proxy rule whose `url_contains` is missing or blank.
pub fn plan_settings_action(input: SettingsActionInput) -> (r: Result<SettingsCall, String>)
    ensures
        match r {
            Ok(c) => settings_call_ok(input, c) && (input.action is RegisterProxyRule
                ==> url_fragment_given(input.url_contains)),
            Err(m) => input.action is RegisterProxyRule && !url_fragment_given(input.url_contains)
                && m@ == url_contains_required(),
        },
{
    proof {
        reveal_strlit("intercept_toggle");
        reveal_strlit("");
        assert(""@ =~= Seq::<char>::empty());
    }
    match input.action {
        SettingsAction::GetProxySettings => Ok(SettingsCall::GetProxySettings),
        SettingsAction::UpdateProxySettings => Ok(
            SettingsCall::UpdateProxySettings(
                ProxySettingsUpdateInput {
                    operation: text_or(input.operation, "intercept_toggle"),
                    port: input.port,
                    running: input.running,
                    listen_mode: input.listen_mode,
                    listen_specific_address: input.listen_specific_address,
                    certificate_mode: input.certificate_mode,
                    enable_http2: input.enable_http2,
                    support_invisible_proxying: input.support_invisible_proxying,
                    target: input.target,
                    mode: input.mode,
                    script: input.script,
                    script_id: input.script_id,
                    script_name: input.script_name,
                    kind: input.kind,
                    index: input.index,
                    rule: input.rule,
                    master_enabled: input.master_enabled,
                    request_enabled: input.request_enabled,
                    response_enabled: input.response_enabled,
                },
            ),
        ),
        SettingsAction::ExportConfig => Ok(SettingsCall::ExportConfig),
        SettingsAction::InspectConfig => Ok(
            SettingsCall::InspectConfig(InspectConfigInput { paths: input.paths }),
        ),
        SettingsAction::ImportConfig => Ok(
            SettingsCall::ImportConfig(ImportConfigInput { config: text_or(input.config, "") }),
        ),
        SettingsAction::InterceptState => Ok(SettingsCall::InterceptState),
        SettingsAction::SetInterceptState => {
            let enabled = match input.enabled {
                Some(b) => b,
                None => false,
            };
            Ok(SettingsCall::SetInterceptState(SetInterceptStateInput { enabled }))
        },
        SettingsAction::ProxyInterceptConfig => Ok(SettingsCall::ProxyInterceptConfig),
        SettingsAction::UpdateProxyInterceptConfig => Ok(
            SettingsCall::UpdateProxyInterceptConfig(
                ProxyInterceptConfigInput {
                    master_intercept_enabled: input.master_enabled,
                    request_do_intercept: input.request_enabled,
                    request_auto_content_length: None,
                    request_fix_missing_new_lines: None,
                    request_rules: None,
                    replace_request_rules: None,
                    response_do_intercept: input.response_enabled,
                    response_auto_content_length: None,
                    response_rules: None,
                    replace_response_rules: None,
                    response_unhide_hidden_fields: None,
                    response_enable_disabled_fields: None,
                    response_remove_input_length_limits: None,
                    response_remove_javascript_validation: None,
                    response_remove_all_javascript: None,
                    websocket_client_to_server: None,
                    websocket_server_to_client: None,
                    websocket_in_scope_only: None,
                },
            ),
        ),
        SettingsAction::RegisterHttpHandler => Ok(
            SettingsCall::RegisterHttpHandler(
                RegisterHttpHandlerInput {
                    header_name: input.header_name,
                    header_value: input.header_value,
                    match_text: input.match_text,
                    replace: input.replace,
                },
            ),
        ),
        SettingsAction::RemoveHttpHandler => Ok(SettingsCall::RemoveHttpHandler),
        SettingsAction::RegisterProxyRule => {
            let url_contains = match input.url_contains {
                Some(u) => u,
                None => {
                    return Err(
                        string_from_chars(
                            chars_of("`url_contains` is required and must not be empty").as_slice(),
                        ),
                    );
                },
            };
            let trimmed = trim_chars(chars_of(url_contains.as_str()).as_slice());
            if trimmed.len() == 0 {
                return Err(
                    string_from_chars(
                        chars_of("`url_contains` is required and must not be empty").as_slice(),
                    ),
                );
            }
            Ok(
                SettingsCall::RegisterProxyRule(
                    RegisterProxyRuleInput {
                        id: input.id,
                        url_contains,
                        phase: input.phase,
                        rule_action: input.rule_action,
                        match_text: input.match_text,
                        replace: input.replace,
                        header_name: input.header_name,
                        header_value: input.header_value,
                        enabled: input.enabled,
                    },
                ),
            )
        },
        SettingsAction::ListProxyRules => Ok(SettingsCall::ListProxyRules),
        SettingsAction::RemoveProxyRule => Ok(
            SettingsCall::RemoveProxyRule(RemoveProxyRuleInput { id: input.id }),
        ),
    }
}

} // verus!
