//! What follows from each step that the library takes, for whoever carries it out.
use crate::balanced_proxy::{are_proxies_for, are_targets, drawn_second, Change};
use crate::docker_discovery::{
    are_changes_for, default_config, discovery_message, found_service, is_insert, reports,
    service_of, ConfigView, ContainerSummary, DockerDiscoveryConfig, ErrorKindView, PortView,
};
use crate::forward::{is_first_step, outgoing_lines, verdict, ForwardStep, Verdict};
use crate::headers::{first_of, first_text, header_lines, opt_bytes, Lines};
use crate::message::{failed_answer, plain_answer, AnswerView, ErrorView, RequestHead};
use crate::proxy::{
    is_default_policy, is_target, seconds, HostBehaviour, ProxyPolicy, ProxyView, XForwardedFor,
};
use crate::rfc9110::{
    answer_status, counted_down, credential_names, entry_views, is_default_config, is_layer_step,
    is_loop, keeps_upgrade, max_forwards_of, preserved_lines, same_but_headers, same_config,
    server_names_of, via_replaced, via_value, LayerAnswer, LayerRequest, LayerStep, MaxForwards,
    Rfc9110Config, ViaEntry,
};
use crate::router_ext::{
    appended_path, can_build, is_routed_step, param_texts, target_path_and_query, target_uri,
};
use crate::text::{lower, opt_text, split, texts, trim};
use crate::uri::{is_path_and_query, origin_builds, parsed_uri, query_of, UriParts, UriView};
use crate::websocket::{
    has_token, parsed_url, switching_lines, upgrade_error_text, upgrade_host, websocket_url,
    UpgradeErrorView,
};
use vstd::prelude::*;

verus! {

/// An answer has the status and the text that are given; only a failure is a 502 and carries an
/// error, with the message and whether it came up while connecting.
pub proof fn law_answers(status: u16, body: Seq<char>, message: Seq<char>, is_connect: bool)
    ensures
        plain_answer(status, body).status == status,
        plain_answer(status, body).body == body,
        plain_answer(status, body).error is None,
        failed_answer(body, message, is_connect).status == 502,
        failed_answer(body, message, is_connect).body == body,
        failed_answer(body, message, is_connect).error == Some(ErrorView { message, is_connect }),
{
}

/// A target can be forwarded to exactly where it parses as a URI that has an authority.
pub proof fn law_targets(target: Seq<char>, u: UriView)
    ensures
        parsed_uri(target) is None ==> !is_target(target),
        parsed_uri(target) == Some(u) ==> (is_target(target) <==> u.authority is Some),
{
}

/// A list of tokens holds a token exactly where one of its pieces, trimmed, is that token in any
/// case.
pub proof fn law_tokens(list: Seq<char>, token: Seq<char>)
    ensures
        forall|i: int|
            0 <= i < split(list, ',').len() && lower(trim(#[trigger] split(list, ',')[i])) == lower(
                token,
            ) ==> has_token(list, token),
        has_token(list, token) ==> exists|i: int|
            0 <= i < split(list, ',').len() && lower(trim(#[trigger] split(list, ',')[i])) == lower(
                token,
            ),
{
}

/// What is to be done with a request that is forwarded: the three refusals are answered with 501,
/// 508 and 413; an upgrade is planned, or a 502 carries the reason why not; everything else is sent
/// to the upstream URI as it is, with the policy's limits.
pub proof fn law_first_steps(
    step: ForwardStep,
    upstream: UriView,
    req: RequestHead,
    policy: ProxyPolicy,
)
    requires
        is_first_step(step, upstream, req, policy),
    ensures
        ({
            let client = header_lines(req.headers);
            let v = verdict(req.method@, client, policy);
            let host = upgrade_host(
                client,
                opt_text(req.authority),
                parsed_url(websocket_url(upstream)),
                policy,
            );
            &&& v == Verdict::NotImplemented ==> is_answer(step, 501, "Not Implemented"@, None)
            &&& v == Verdict::LoopDetected ==> is_answer(step, 508, "Loop Detected"@, None)
            &&& v == Verdict::TooLarge ==> is_answer(step, 413, "Payload Too Large"@, None)
            &&& v == Verdict::Upgrade && host is Err ==> is_answer(
                step,
                502,
                "WebSocket upgrade failed"@,
                Some(ErrorView { message: upgrade_error_text(host->Err_0), is_connect: false }),
            )
            &&& v == Verdict::Upgrade && host is Ok ==> step is Upgrade && step->Upgrade_0.url@
                == websocket_url(upstream) && header_lines(step->Upgrade_0.headers)
                == client.insert("host"@, seq![host->Ok_0]) && header_lines(
                step->Upgrade_0.response_headers,
            ) == switching_lines(first_text(client, "sec-websocket-key"@)->0)
                && step->Upgrade_0.connect_timeout == policy.websocket_connect_timeout
            &&& v == Verdict::Forward ==> step is Send && step->Send_0.uri@ == upstream
                && header_lines(step->Send_0.headers) == outgoing_lines(
                client,
                opt_text(req.client_address),
                req.version,
                policy,
            ) && step->Send_0.timeout == policy.upstream_timeout && step->Send_0.body_limit
                == policy.max_request_body_bytes
        }),
{
}

/// Whether a step answers the client with this status, text and error.
pub open spec fn is_answer(
    step: ForwardStep,
    status: u16,
    body: Seq<char>,
    error: Option<ErrorView>,
) -> bool {
    step is Answer && step->Answer_0@ == (AnswerView { status, body, error })
}

/// A request on a route is answered with 500 where its target is no URI or cannot be asked;
/// otherwise it is forwarded to the target's URI.
pub proof fn law_routed_steps(
    step: ForwardStep,
    target: Option<UriView>,
    is_base_url: bool,
    req: RequestHead,
    policy: ProxyPolicy,
    route_prefix: Seq<char>,
)
    requires
        is_routed_step(step, target, is_base_url, req, policy, route_prefix),
    ensures
        ({
            let query = query_of(req.path_and_query@);
            let append = appended_path(is_base_url, req.path_and_query@, route_prefix);
            &&& target is None || !can_build(target->0, query, append) ==> is_answer(
                step,
                500,
                "Invalid proxy target"@,
                None,
            )
            &&& target is Some && can_build(target->0, query, append) ==> is_first_step(
                step,
                target_uri(target->0, query, append),
                req,
                policy,
            )
        }),
{
}

/// A target can be asked exactly where it has an authority, scheme and authority make an origin,
/// and what is asked for can stand behind them.
pub proof fn law_askable_targets(
    target: UriView,
    authority: Seq<char>,
    query: Option<Seq<char>>,
    append: Option<Seq<char>>,
)
    ensures
        target.authority is None ==> !can_build(target, query, append),
        target.authority == Some(authority) && target.scheme is Some ==> (can_build(
            target,
            query,
            append,
        ) <==> origin_builds(target.scheme->0, authority) && is_path_and_query(
            target_path_and_query(target, query, append),
        )),
        target.authority == Some(authority) && target.scheme is None ==> (can_build(
            target,
            query,
            append,
        ) <==> origin_builds("http"@, authority) && is_path_and_query(
            target_path_and_query(target, query, append),
        )),
{
}

/// What the layer does with a request: a loop is answered, whatever else holds, and then a request
/// whose hops are spent; in both cases the headers stay. Everything else is handed on with the
/// headers that are preserved and the new `Via`, and for the response the same headers, that `Via`,
/// the first `Max-Forwards` line and whether it is an upgrade are kept.
pub proof fn law_layer_steps(
    step: LayerStep,
    req: LayerRequest,
    after: Lines,
    config: Rfc9110Config,
)
    requires
        is_layer_step(step, req, after, config),
    ensures
        ({
            let m = header_lines(req.headers);
            let method = req.method@;
            let looped = is_loop(opt_text(req.host), m, config);
            let spent = max_forwards_of(method, m) == MaxForwards::Spent;
            let counted = counted_down(method, m);
            let kept = preserved_lines(method, m, config);
            let value = via_value(method, req.version, m, config);
            &&& looped || spent ==> after == m && step is Answer
            &&& looped ==> step->Answer_0 is LoopDetected
            &&& !looped && spent && method == "TRACE"@ ==> step->Answer_0 is TraceEcho
                && header_lines(step->Answer_0->headers) == m.remove_keys(
                credential_names().to_set(),
            )
            &&& !looped && spent && method != "TRACE"@ ==> step->Answer_0 is Options
                && step->Answer_0->allow@ == "GET, HEAD, OPTIONS, TRACE"@
            &&& !looped && !spent ==> step is Forward && after == via_replaced(kept, value)
                && header_lines(step->Forward_0.preserved) == kept && opt_bytes(
                step->Forward_0.via,
            ) == value && step->Forward_0.is_websocket == keeps_upgrade(counted, config)
                && first_of(header_lines(step->Forward_0.max_forwards), "max-forwards"@)
                == first_of(counted, "max-forwards"@)
        }),
{
}

/// The answers of the layer: 508 for a loop, 200 for the others.
pub proof fn law_layer_statuses(a: LayerAnswer)
    ensures
        a is LoopDetected ==> answer_status(a) == 508,
        !(a is LoopDetected) ==> answer_status(a) == 200,
{
}

/// A request that the layer has processed keeps its method, its host and its version.
pub proof fn law_requests_keep_their_line(a: LayerRequest, b: LayerRequest)
    requires
        same_but_headers(a, b),
    ensures
        a.method@ == b.method@,
        opt_text(a.host) == opt_text(b.host),
        a.version == b.version,
{
}

/// A copy of a configuration is the same in each setting, and the server names are those of the
/// list, in order.
pub proof fn law_configurations(a: Rfc9110Config, b: Rfc9110Config, i: int)
    ensures
        same_config(a, b) ==> {
            &&& server_names_of(a) == server_names_of(b)
            &&& opt_text(a.pseudonym) == opt_text(b.pseudonym)
            &&& a.combine_via == b.combine_via
            &&& a.preserve_websocket_headers == b.preserve_websocket_headers
        },
        a.server_names is None ==> server_names_of(a).len() == 0,
        a.server_names matches Some(v) ==> server_names_of(a).len() == v@.len() && (0 <= i
            < v@.len() ==> server_names_of(a)[i] == v@[i]@),
{
}

/// One proxy is made for each target, in order, under the same path.
pub proof fn law_one_proxy_for_each_target(
    proxies: Seq<ProxyView>,
    path: Seq<char>,
    targets: Seq<Seq<char>>,
    i: int,
)
    requires
        are_proxies_for(proxies, path, targets),
    ensures
        proxies.len() == targets.len(),
        0 <= i < targets.len() ==> proxies[i].target == targets[i] && proxies[i].path == path
            && !proxies[i].buffer_bodies,
        forall|k: int| 0 <= k < targets.len() ==> is_target(#[trigger] targets[k]),
{
    assert forall|k: int| 0 <= k < targets.len() implies is_target(#[trigger] targets[k]) by {
        assert(crate::proxy::is_proxy(proxies[k]));
    }
    if 0 <= i < targets.len() {
        assert(proxies[i].path == path);
    }
}

/// Targets can be forwarded to where each one can.
pub proof fn law_all_targets(targets: Seq<Seq<char>>, i: int)
    ensures
        are_targets(targets) && 0 <= i < targets.len() ==> is_target(targets[i]),
        (forall|k: int| 0 <= k < targets.len() ==> is_target(#[trigger] targets[k]))
            ==> are_targets(targets),
{
}

/// The second of two draws below the first stands for itself, and any other for the next position.
pub proof fn law_second_draw(i: int, j: int)
    ensures
        j < i ==> drawn_second(i, j) == j,
        j >= i ==> drawn_second(i, j) == j + 1,
{
}

/// Why an upgrade fails, in words.
pub proof fn law_upgrade_messages(message: Seq<char>)
    ensures
        upgrade_error_text(UpgradeErrorView::MissingKey)
            == "Missing or invalid Sec-WebSocket-Key header"@,
        upgrade_error_text(UpgradeErrorView::InvalidUrl { message }) == message,
        upgrade_error_text(UpgradeErrorView::MissingHost) == "Missing host in URL"@,
        upgrade_error_text(UpgradeErrorView::InvalidHost) == "failed to parse header value"@,
{
}

/// Why a container gives no service, in words.
pub proof fn law_discovery_messages(label: Seq<char>, value: Seq<char>)
    ensures
        discovery_message(ErrorKindView::InvalidLabelFormat) == "Invalid label format"@,
        discovery_message(ErrorKindView::NoName) == "Container has no name"@,
        discovery_message(ErrorKindView::NoNetworkSettings) == "No network settings found"@,
        discovery_message(ErrorKindView::NoIpAddress) == "No IP address found for container"@,
        discovery_message(ErrorKindView::InvalidPort { label, value }) == "Invalid port in label "@
            + label + ": "@ + value,
        discovery_message(ErrorKindView::PortLabelNotFound { label }) == "Port label not found: "@
            + label,
        discovery_message(ErrorKindView::NoPortsExposed) == "No ports exposed"@,
        discovery_message(ErrorKindView::NoExposedPorts) == "No exposed ports found"@,
{
}

/// What is known of a container is what was reported of it, in the same order: names, labels,
/// networks with their addresses, and ports.
pub proof fn law_containers(c: ContainerSummary, i: int)
    ensures
        c.names is None <==> c@.names is None,
        c.labels is None <==> c@.labels is None,
        c.networks is None <==> c@.networks is None,
        c.ports matches Some(v) ==> c@.ports == Some(v@),
        c.ports is None ==> c@.ports is None,
        c.names matches Some(v) ==> c@.names->0.len() == v@.len() && (0 <= i < v@.len()
            ==> c@.names->0[i] == v@[i]@),
        c.labels matches Some(v) ==> c@.labels->0.len() == v@.len() && (0 <= i < v@.len()
            ==> c@.labels->0[i] == (v@[i].0@, v@[i].1@)),
        c.networks matches Some(v) ==> c@.networks->0.len() == v@.len() && (0 <= i < v@.len()
            ==> c@.networks->0[i].name == v@[i].name@ && c@.networks->0[i].ip_address == opt_text(
            v@[i].ip_address,
        )),
{
}

/// What a configuration says is what it was set to.
pub proof fn law_discovery_configurations(c: DockerDiscoveryConfig, i: int)
    ensures
        c@.label_prefix == c.label_prefix@,
        c@.discover_all == c.discover_all,
        c@.network_filter == opt_text(c.network_filter),
        c@.strip_prefix == opt_text(c.strip_prefix),
        c@.use_service_names == c.use_service_names,
        c@.required_labels.len() == c.required_labels@.len(),
        0 <= i < c.required_labels@.len() ==> c@.required_labels[i] == (
            c.required_labels@[i].0@,
            c.required_labels@[i].1@,
        ),
{
}

/// The service of a container that could be looked up is the one in it, and there is none where it
/// could not be looked up or gives none; what is reported is that service under its path.
pub proof fn law_found_services(
    config: ConfigView,
    c: &ContainerSummary,
    path: Seq<char>,
    service: Seq<char>,
    change: Change<String, String>,
    m: Map<Seq<char>, Seq<char>>,
)
    ensures
        found_service(config, None) is None,
        service_of(config, c@) == Ok::<(Seq<char>, Seq<char>), ErrorKindView>((path, service))
            <==> found_service(config, Some(c)) == Some((path, service)),
        is_insert(Some(change), path, service) <==> change is Insert && change->Insert_0@ == path
            && change->Insert_1@ == service,
        !is_insert(None, path, service),
        reports(change, m) <==> change is Insert && m.contains_key(change->Insert_0@)
            && m[change->Insert_0@] == change->Insert_1@,
{
}

/// The parts of a URI are those that it is made of.
pub proof fn law_uri_parts(u: UriParts)
    ensures
        u@.scheme == opt_text(u.scheme),
        u@.authority == opt_text(u.authority),
        u@.path == u.path@,
        u@.query == opt_text(u.query),
{
}

/// The head of a request says what it is made of.
pub proof fn law_request_heads(r: RequestHead)
    ensures
        r@.method == r.method@,
        r@.scheme == opt_text(r.scheme),
        r@.authority == opt_text(r.authority),
        r@.path_and_query == r.path_and_query@,
        r@.version == r.version,
        r@.headers == header_lines(r.headers),
        r@.client_address == opt_text(r.client_address),
{
}

/// Lists are read element by element, in order.
pub proof fn law_lists(
    strings: Seq<String>,
    params: Seq<(String, String)>,
    entries: Seq<ViaEntry>,
    i: int,
)
    ensures
        texts(strings).len() == strings.len(),
        0 <= i < strings.len() ==> texts(strings)[i] == strings[i]@,
        param_texts(params).len() == params.len(),
        0 <= i < params.len() ==> param_texts(params)[i] == (params[i].0@, params[i].1@),
        entry_views(entries).len() == entries.len(),
        0 <= i < entries.len() ==> entry_views(entries)[i] == entries[i]@,
{
}

/// What holds where nothing else was set: five seconds for a WebSocket upstream to connect, the
/// upstream's own host, the client's address appended; and of the layer, no server names and no
/// pseudonym, entries combined and upgrade headers kept.
pub proof fn law_defaults(p: ProxyPolicy, c: Rfc9110Config)
    ensures
        is_default_policy(p) ==> {
            &&& p.host_behaviour == HostBehaviour::Replace
            &&& p.x_forwarded_for == XForwardedFor::Append
            &&& p.websocket_connect_timeout == seconds(5)
            &&& p.public_scheme is None
            &&& p.upstream_timeout is None
            &&& p.max_request_body_bytes is None
            &&& p.via is None
        },
        is_default_config(c) ==> {
            &&& c.server_names is None
            &&& c.pseudonym is None
            &&& c.combine_via
            &&& c.preserve_websocket_headers
        },
        default_config() == (ConfigView {
            label_prefix: "axum-proxy"@,
            discover_all: false,
            required_labels: Seq::empty(),
            network_filter: None,
            port_detection: PortView::FirstExposed,
            strip_prefix: None,
            use_service_names: true,
        }),
{
}

/// The changes that are reported for a table of services are one insertion for each of them, with
/// its path and its service, and no others.
pub proof fn law_every_service_is_reported(
    changes: Seq<Change<String, String>>,
    m: Map<Seq<char>, Seq<char>>,
    path: Seq<char>,
)
    requires
        are_changes_for(changes, m),
        m.dom().finite(),
    ensures
        m.contains_key(path) <==> exists|i: int|
            0 <= i < changes.len() && is_insert(Some(#[trigger] changes[i]), path, m[path]),
        forall|i: int, j: int|
            0 <= i < j < changes.len() ==> (#[trigger] changes[i])->Insert_0@ != (
            #[trigger] changes[j])->Insert_0@,
        forall|i: int| 0 <= i < changes.len() ==> (#[trigger] changes[i]) is Insert,
{
    let paths = Seq::new(changes.len(), |i: int| changes[i]->Insert_0@);
    assert(paths.no_duplicates()) by {
        assert forall|i: int, j: int| 0 <= i < j < paths.len() implies paths[i] != paths[j] by {
            assert(changes[i]->Insert_0@ != changes[j]->Insert_0@);
        }
    }
    paths.unique_seq_to_set();
    assert(paths.to_set().subset_of(m.dom())) by {
        assert forall|p: Seq<char>| paths.to_set().contains(p) implies m.dom().contains(p) by {
            let i = choose|i: int| 0 <= i < paths.len() && paths[i] == p;
            assert(reports(changes[i], m));
        }
    }
    vstd::set_lib::lemma_subset_equality(paths.to_set(), m.dom());
    if m.contains_key(path) {
        assert(paths.to_set().contains(path));
        let i = choose|i: int| 0 <= i < paths.len() && paths[i] == path;
        assert(reports(changes[i], m));
        assert(is_insert(Some(changes[i]), path, m[path]));
    }
    assert forall|i: int| 0 <= i < changes.len() implies (#[trigger] changes[i]) is Insert by {
        assert(reports(changes[i], m));
    }
    if exists|i: int|
        0 <= i < changes.len() && is_insert(Some(#[trigger] changes[i]), path, m[path]) {
        let i = choose|i: int|
            0 <= i < changes.len() && is_insert(Some(#[trigger] changes[i]), path, m[path]);
        assert(reports(changes[i], m));
    }
}

} // verus!
