//! What holds of every request, from its credentials to its reply.
use vstd::prelude::*;
use vstd::utf8::encode_utf8;
use crate::chat::{
    enqueue_refusal, event_stream, is_hex, is_request_id, left_of, relayed_fields,
    serving_timeout, slot_refusal, stream_fields, success, upstream_credentials, upstream_fields,
    RequestView,
};
use crate::config::{first_owner, owner_of, ProxyConfig};
use crate::config_laws::{
    law_a_passed_configuration_starts_well, law_only_configurations_in_order_pass,
};
use crate::handlers::{
    bare, client_key_of, failure, pairs_of, resolution, resolution_metrics, with_header,
    ErrorView, Reply, ReplyView,
};
use crate::headers::{
    bytes_view, fields_of, first_text, first_value, is_visible, passes, passing, plain_name,
    readable, text_of, text_view,
};
use crate::metrics::{CredentialFault, Metric};
use crate::name_map::has_name;
use crate::queue::QueueError;
use crate::schedule::initial_state;
use crate::text_laws::law_what_occurring_means;

verus! {

/// A request is refused for its credentials exactly where the configuration
/// takes in no requests without a matching key and the request brings no key,
/// or one that belongs to no project. The refusal is 403, and tells the two
/// apart.
pub proof fn law_refused_credentials(fields: Seq<(Seq<char>, Seq<u8>)>, config: ProxyConfig)
    ensures
        resolution(fields, config) is Err <==> {
            &&& config.unauthenticated.target() is None
            &&& match client_key_of(fields) {
                Some(key) => owner_of(config.projects@, key) is None,
                None => true,
            }
        },
        resolution(fields, config) matches Err(reply) ==> reply == if client_key_of(
            fields,
        ) is None {
            failure(403, "no_credentials"@, "No API key provided"@)
        } else {
            failure(403, "unknown_key"@, "Unknown API key"@)
        },
{
}

/// Under a configuration that has passed, a request that is let in belongs to a
/// project of the configuration, which the scheduler made from it knows.
pub proof fn law_resolved_projects_are_known<T>(
    fields: Seq<(Seq<char>, Seq<u8>)>,
    config: ProxyConfig,
)
    requires
        config.fault() is None,
    ensures
        resolution(fields, config) matches Ok(name) ==> {
            &&& has_name(config.projects@, name)
            &&& initial_state::<T>(config).has_project(name)
        },
{
    law_only_configurations_in_order_pass(config);
    law_a_passed_configuration_starts_well::<T>(config);
    if let Ok(name) = resolution(fields, config) {
        if client_key_of(fields) is Some {
            let key = client_key_of(fields)->0;
            if owner_of(config.projects@, key) is Some {
                let i = choose|i: int| first_owner(config.projects@, key, i);
                assert(config.projects@[i].0 == name);
            }
        }
        assert(has_name(config.projects@, name));
    }
}

/// Whether a reply has a header field.
pub open spec fn has_field(reply: ReplyView, name: Seq<char>, value: Seq<char>) -> bool {
    reply.headers.contains((name, value))
}

/// A request that is turned away or thrown out may be tried again: the reply
/// says after how many seconds. A request that runs out of time, before it has
/// its slot or after, is told so. All these replies carry the request id and
/// name the project.
pub proof fn law_refusals_name_the_request(name: String, request: RequestView)
    ensures
        ({
            let full = enqueue_refusal(QueueError::QueueFull(name), request);
            &&& full.status == 503
            &&& full.error matches Some(e)
            &&& e.kind == "queue_full"@
            &&& e.message == "Queue is full for project: "@ + request.project
            &&& has_field(full, "retry-after"@, "5"@)
            &&& has_field(full, "x-request-id"@, request.id)
        }),
        ({
            let evicted = slot_refusal(QueueError::Evicted(name), request);
            &&& evicted.status == 429
            &&& evicted.error matches Some(e)
            &&& e.kind == "evicted"@
            &&& e.message == "Request evicted due to higher priority traffic (project: "@
                + request.project + ")"@
            &&& has_field(evicted, "retry-after"@, "5"@)
            &&& has_field(evicted, "x-request-id"@, request.id)
        }),
        ({
            let late = slot_refusal(QueueError::Timeout(name), request);
            &&& late.status == 504
            &&& late.error matches Some(e)
            &&& e.kind == "timeout"@
            &&& e.message == "Request timed out waiting for a slot (project: "@ + request.project
                + ")"@
            &&& has_field(late, "x-request-id"@, request.id)
        }),
        ({
            let late = serving_timeout(request);
            &&& late.status == 504
            &&& late.error matches Some(e)
            &&& e.kind == "timeout"@
            &&& e.message == "Request timed out while being served (project: "@ + request.project
                + ")"@
            &&& has_field(late, "x-request-id"@, request.id)
        }),
{
    let full = enqueue_refusal(QueueError::QueueFull(name), request);
    assert(full.headers[0] == ("retry-after"@, "5"@));
    assert(full.headers[1] == ("x-request-id"@, request.id));
    let evicted = slot_refusal(QueueError::Evicted(name), request);
    assert(evicted.headers[0] == ("retry-after"@, "5"@));
    assert(evicted.headers[1] == ("x-request-id"@, request.id));
    let late = slot_refusal(QueueError::Timeout(name), request);
    assert(late.headers[0] == ("x-request-id"@, request.id));
    assert(serving_timeout(request).headers[0] == ("x-request-id"@, request.id));
}

/// A request id consists of visible ASCII characters, so that it can stand in a
/// header field.
pub proof fn law_a_request_id_fits_a_header(id: Seq<char>)
    requires
        is_request_id(id),
    ensures
        forall|i: int| 0 <= i < id.len() ==> 33 <= (#[trigger] id[i]) as int <= 126,
{
    assert forall|i: int| 0 <= i < id.len() implies 33 <= (#[trigger] id[i]) as int <= 126 by {
        assert(i == 8 || i == 13 || i == 18 || i == 23 || is_hex(id[i]));
    }
}

/// What is passed on passes, and was there before.
proof fn lemma_passing(fields: Seq<(Seq<char>, Seq<u8>)>, prefixes: Seq<Seq<char>>, i: int)
    requires
        0 <= i < passing(fields, prefixes).len(),
    ensures
        passes(passing(fields, prefixes)[i].0, prefixes),
        fields.contains(passing(fields, prefixes)[i]),
{
    let pred = |f: (Seq<char>, Seq<u8>)| passes(f.0, prefixes);
    fields.lemma_filter_pred(pred, i);
    assert(fields.filter(pred).contains(fields.filter(pred)[i]));
    fields.lemma_filter_contains_rev(pred, fields.filter(pred)[i]);
}

/// The sum of a list of times.
pub open spec fn total_of(times: Seq<nat>) -> nat
    decreases times.len(),
{
    if times.len() == 0 {
        0
    } else {
        total_of(times.drop_last()) + times.last()
    }
}

/// Where each wait of a request takes no longer than what the waits before it
/// have left of its time, all of them together stay within its time.
pub proof fn law_a_request_stays_within_its_time(limit: nat, times: Seq<nat>)
    requires
        forall|k: int|
            0 <= k < times.len() ==> #[trigger] times[k] <= left_of(limit, total_of(times.take(k))),
    ensures
        total_of(times) <= limit,
    decreases times.len(),
{
    if times.len() > 0 {
        let before = times.drop_last();
        assert forall|k: int| 0 <= k < before.len() implies #[trigger] before[k] <= left_of(
            limit,
            total_of(before.take(k)),
        ) by {
            assert(before.take(k) =~= times.take(k));
            assert(before[k] == times[k]);
        }
        law_a_request_stays_within_its_time(limit, before);
        assert(times.take(times.len() - 1) =~= before);
        assert(times[times.len() - 1] <= left_of(limit, total_of(times.take(times.len() - 1))));
    }
}

/// Of the client's header fields, only those that describe the content or begin
/// with `x-` go upstream as they are. Credentials go in one field at most: with
/// the configured key, or else with what the client sent.
pub proof fn law_one_credential_goes_upstream(
    fields: Seq<(Seq<char>, Seq<u8>)>,
    config: ProxyConfig,
)
    ensures
        upstream_credentials(fields, config).len() <= 1,
        forall|i: int|
            0 <= i < upstream_fields(fields, config).len() ==> if i < upstream_credentials(
                fields,
                config,
            ).len() {
                &&& (#[trigger] upstream_fields(fields, config)[i]).0 == "authorization"@
                &&& upstream_fields(fields, config)[i] == upstream_credentials(fields, config)[i]
            } else {
                &&& upstream_fields(fields, config)[i].0 != "authorization"@
                &&& passes(upstream_fields(fields, config)[i].0, seq!["x-"@])
                &&& fields.contains(upstream_fields(fields, config)[i])
            },
{
    reveal_strlit("authorization");
    reveal_strlit("content-type");
    reveal_strlit("x-");
    let first = upstream_credentials(fields, config);
    let all = upstream_fields(fields, config);
    assert forall|i: int| first.len() <= i < all.len() implies {
        &&& (#[trigger] all[i]).0 != "authorization"@
        &&& passes(all[i].0, seq!["x-"@])
        &&& fields.contains(all[i])
    } by {
        lemma_passing(fields, seq!["x-"@], i - first.len());
        assert("authorization"@[0] == 'a');
        assert("content-type"@[0] == 'c');
        assert("x-"@[0] == 'x');
    }
}

/// A response that is passed on carries the request id, and of the upstream's
/// header fields only those that describe the content or begin with `x-` or
/// `openai-`.
pub proof fn law_relayed_fields(fields: Seq<(Seq<char>, Seq<u8>)>, id: Seq<char>)
    ensures
        relayed_fields(fields, id).len() >= 1,
        relayed_fields(fields, id)[0] == ("x-request-id"@, encode_utf8(id)),
        forall|i: int|
            1 <= i < relayed_fields(fields, id).len() ==> {
                &&& passes((#[trigger] relayed_fields(fields, id)[i]).0, seq!["x-"@, "openai-"@])
                &&& fields.contains(relayed_fields(fields, id)[i])
            },
{
    let prefixes = seq!["x-"@, "openai-"@];
    let all = relayed_fields(fields, id);
    assert forall|i: int| 1 <= i < all.len() implies {
        &&& passes((#[trigger] all[i]).0, prefixes)
        &&& fields.contains(all[i])
    } by {
        lemma_passing(fields, prefixes, i - 1);
    }
}

/// The value under a name is that of the first field with this name. It can be
/// read as text exactly where it holds visible ASCII characters, spaces and tabs
/// only, and then reads byte by byte.
pub proof fn law_the_first_field_counts(
    fields: Seq<(Seq<char>, Seq<u8>)>,
    name: Seq<char>,
    i: int,
)
    ensures
        0 <= i < fields.len() && fields[i].0 == name && (forall|k: int|
            0 <= k < i ==> (#[trigger] fields[k]).0 != name) ==> {
            let value = fields[i].1;
            let plain = forall|k: int|
                0 <= k < value.len() ==> 32 <= #[trigger] value[k] <= 126 || value[k] == 9;
            &&& first_value(fields, name) == Some(value)
            &&& first_text(fields, name) == if plain {
                Some(Seq::new(value.len(), |k: int| value[k] as char))
            } else {
                None
            }
        },
        (forall|k: int| 0 <= k < fields.len() ==> (#[trigger] fields[k]).0 != name) ==> {
            &&& first_value(fields, name) is None
            &&& first_text(fields, name) is None
        },
    decreases fields.len(),
{
    if fields.len() > 0 && fields[0].0 != name {
        let rest = fields.skip(1);
        law_the_first_field_counts(rest, name, i - 1);
        if 0 <= i < fields.len() && fields[i].0 == name && (forall|k: int|
            0 <= k < i ==> (#[trigger] fields[k]).0 != name) {
            assert(rest[i - 1] == fields[i]);
            assert forall|k: int| 0 <= k < i - 1 implies (#[trigger] rest[k]).0 != name by {
                assert(rest[k] == fields[k + 1]);
            }
        }
        if forall|k: int| 0 <= k < fields.len() ==> (#[trigger] fields[k]).0 != name {
            assert forall|k: int| 0 <= k < rest.len() implies (#[trigger] rest[k]).0 != name by {
                assert(rest[k] == fields[k + 1]);
            }
        }
    }
    if 0 <= i < fields.len() && fields[i].0 == name && (forall|k: int|
        0 <= k < i ==> (#[trigger] fields[k]).0 != name) {
        if fields[0].0 == name {
            assert(i == 0);
        }
        let value = fields[i].1;
        assert(first_value(fields, name) == Some(value));
        let plain = forall|k: int|
            0 <= k < value.len() ==> 32 <= #[trigger] value[k] <= 126 || value[k] == 9;
        assert(readable(value) == plain) by {
            if plain {
                assert forall|k: int| 0 <= k < value.len() implies is_visible(
                    #[trigger] value[k],
                ) by {}
            }
            if readable(value) {
                assert forall|k: int| 0 <= k < value.len() implies 32 <= #[trigger] value[k]
                    <= 126 || value[k] == 9 by {
                    assert(is_visible(value[k]));
                }
            }
        }
        assert(text_of(value) =~= Seq::new(value.len(), |k: int| value[k] as char));
    }
}

/// A field can be asked for by a name of one to sixty-four lower-case letters
/// and hyphens.
pub proof fn law_which_names_can_be_asked_for(name: Seq<char>)
    ensures
        plain_name(name) <==> 1 <= name.len() <= 64 && forall|i: int|
            0 <= i < name.len() ==> 'a' <= #[trigger] name[i] <= 'z' || name[i] == '-',
{
}

/// A request's key is what follows `Bearer ` in its first authorization field,
/// or else the text of its first key field.
pub proof fn law_where_the_key_stands(fields: Seq<(Seq<char>, Seq<u8>)>, key: Seq<char>)
    ensures
        first_text(fields, "authorization"@) == Some("Bearer "@ + key) ==> client_key_of(fields)
            == Some(key),
        (forall|k: Seq<char>|
            first_text(fields, "authorization"@) != Some(#[trigger] ("Bearer "@ + k)))
            ==> client_key_of(fields) == first_text(fields, "x-api-key"@),
{
    reveal_strlit("Bearer ");
    if first_text(fields, "authorization"@) == Some("Bearer "@ + key) {
        assert("Bearer "@.is_prefix_of("Bearer "@ + key));
        assert(("Bearer "@ + key).skip(7) =~= key);
    }
    if let Some(text) = first_text(fields, "authorization"@) {
        if "Bearer "@.is_prefix_of(text) {
            assert(text =~= "Bearer "@ + text.skip(7));
        }
    }
}

/// A request goes to the project of its key. Where its key has none, or it
/// brings no key, it goes to the project for strangers, and is refused where
/// there is none. Missing and unknown keys are counted, each as what it is.
pub proof fn law_where_a_request_goes(fields: Seq<(Seq<char>, Seq<u8>)>, config: ProxyConfig)
    ensures
        client_key_of(fields) matches Some(key) ==> {
            &&& owner_of(config.projects@, key) matches Some(name) ==> {
                &&& resolution(fields, config) == Ok::<Seq<char>, ReplyView>(name)
                &&& resolution_metrics(fields, config) == Seq::<Metric>::empty()
            }
            &&& owner_of(config.projects@, key) is None ==> {
                &&& resolution_metrics(fields, config) == seq![
                    Metric::CountCredentialFault(CredentialFault::UnknownKey),
                ]
                &&& config.unauthenticated.target() matches Some(name) ==> resolution(
                    fields,
                    config,
                ) == Ok::<Seq<char>, ReplyView>(name)
            }
        },
        client_key_of(fields) is None ==> {
            &&& resolution_metrics(fields, config) == seq![
                Metric::CountCredentialFault(CredentialFault::NoKey),
            ]
            &&& config.unauthenticated.target() matches Some(name) ==> resolution(fields, config)
                == Ok::<Seq<char>, ReplyView>(name)
        },
{
}

/// A response is taken as a stream exactly where its first content type can be
/// read as text and holds `text/event-stream` somewhere. A response with any
/// other content type, or with none, is not.
pub proof fn law_what_is_taken_as_a_stream(fields: Seq<(Seq<char>, Seq<u8>)>, i: int)
    ensures
        0 <= i < fields.len() && fields[i].0 == "content-type"@ && (forall|k: int|
            0 <= k < i ==> (#[trigger] fields[k]).0 != "content-type"@) ==> {
            let value = fields[i].1;
            event_stream(fields) <==> {
                &&& forall|k: int|
                    0 <= k < value.len() ==> 32 <= #[trigger] value[k] <= 126 || value[k] == 9
                &&& exists|before: Seq<char>, behind: Seq<char>|
                    Seq::new(value.len(), |k: int| value[k] as char) == #[trigger] (before
                        + "text/event-stream"@ + behind)
            }
        },
        (forall|k: int| 0 <= k < fields.len() ==> (#[trigger] fields[k]).0 != "content-type"@)
            ==> !event_stream(fields),
{
    law_the_first_field_counts(fields, "content-type"@, i);
    if 0 <= i < fields.len() {
        let value = fields[i].1;
        law_what_occurring_means(
            "text/event-stream"@,
            Seq::new(value.len(), |k: int| value[k] as char),
        );
    }
}

/// Success is every status from 200 to 299, and no other.
pub proof fn law_what_success_is(status: u16)
    ensures
        success(status) <==> 200 <= status <= 299,
{
}

/// What passes on is decided field by field, and the order stays.
pub proof fn law_fields_pass_one_by_one(
    a: Seq<(Seq<char>, Seq<u8>)>,
    b: Seq<(Seq<char>, Seq<u8>)>,
    field: (Seq<char>, Seq<u8>),
    prefixes: Seq<Seq<char>>,
)
    ensures
        passing(a + b, prefixes) == passing(a, prefixes) + passing(b, prefixes),
        passing(Seq::empty(), prefixes) == Seq::<(Seq<char>, Seq<u8>)>::empty(),
        passing(seq![field], prefixes) == if field.0 == "content-type"@ || exists|k: int|
            0 <= k < prefixes.len() && (#[trigger] prefixes[k]).is_prefix_of(field.0) {
            seq![field]
        } else {
            Seq::empty()
        },
{
    reveal(Seq::filter);
    let pred = |f: (Seq<char>, Seq<u8>)| passes(f.0, prefixes);
    lemma_filter_join(a, b, pred);
    assert(seq![field].drop_last() =~= Seq::<(Seq<char>, Seq<u8>)>::empty());
    assert(seq![field].drop_last().filter(pred) =~= Seq::<(Seq<char>, Seq<u8>)>::empty());
    assert(passing(seq![field], prefixes) =~= if passes(field.0, prefixes) {
        seq![field]
    } else {
        Seq::empty()
    });
}

proof fn lemma_filter_join<A>(a: Seq<A>, b: Seq<A>, pred: spec_fn(A) -> bool)
    ensures
        (a + b).filter(pred) == a.filter(pred) + b.filter(pred),
    decreases b.len(),
{
    reveal(Seq::filter);
    if b.len() == 0 {
        assert(a + b =~= a);
        assert(a.filter(pred) + b.filter(pred) =~= a.filter(pred));
    } else {
        assert((a + b).drop_last() =~= a + b.drop_last());
        lemma_filter_join(a, b.drop_last(), pred);
        assert((a + b).filter(pred) =~= a.filter(pred) + b.filter(pred));
    }
}

/// Upstream go the credentials, first, and then the client's fields that pass:
/// those for the content and those that begin with `x-`. The credentials are the
/// configured key, or else the client's first authorization field as it came, or
/// else none.
pub proof fn law_what_goes_upstream(fields: Seq<(Seq<char>, Seq<u8>)>, config: ProxyConfig)
    ensures
        config.upstream.api_key matches Some(key) ==> upstream_fields(fields, config) == seq![
            ("authorization"@, encode_utf8("Bearer "@ + key@)),
        ] + passing(fields, seq!["x-"@]),
        config.upstream.api_key is None ==> {
            &&& first_value(fields, "authorization"@) matches Some(value) ==> upstream_fields(
                fields,
                config,
            ) == seq![("authorization"@, value)] + passing(fields, seq!["x-"@])
            &&& first_value(fields, "authorization"@) is None ==> upstream_fields(fields, config)
                == passing(fields, seq!["x-"@])
        },
{
    if config.upstream.api_key is None && first_value(fields, "authorization"@) is None {
        assert(upstream_fields(fields, config) =~= passing(fields, seq!["x-"@]));
    }
}

/// Back go the request id, first, and then the upstream's fields that pass:
/// those for the content and those that begin with `x-` or `openai-`. A stream
/// carries the request id and asks not to be cached or held back.
pub proof fn law_what_goes_back(fields: Seq<(Seq<char>, Seq<u8>)>, id: Seq<char>)
    ensures
        relayed_fields(fields, id) == seq![("x-request-id"@, encode_utf8(id))] + passing(
            fields,
            seq!["x-"@, "openai-"@],
        ),
        stream_fields(id) == seq![
            ("x-request-id"@, id),
            ("cache-control"@, "no-cache"@),
            ("x-accel-buffering"@, "no"@),
        ],
{
}

/// The replies that refuse a request, to the last field.
pub proof fn law_what_refusals_say(name: String, request: RequestView)
    ensures
        enqueue_refusal(QueueError::QueueFull(name), request) == (ReplyView {
            status: 503,
            error: Some(
                ErrorView {
                    message: "Queue is full for project: "@ + request.project,
                    kind: "queue_full"@,
                },
            ),
            headers: seq![("retry-after"@, "5"@), ("x-request-id"@, request.id)],
        }),
        slot_refusal(QueueError::Evicted(name), request) == (ReplyView {
            status: 429,
            error: Some(
                ErrorView {
                    message: "Request evicted due to higher priority traffic (project: "@
                        + request.project + ")"@,
                    kind: "evicted"@,
                },
            ),
            headers: seq![("retry-after"@, "5"@), ("x-request-id"@, request.id)],
        }),
        slot_refusal(QueueError::Timeout(name), request) == (ReplyView {
            status: 504,
            error: Some(
                ErrorView {
                    message: "Request timed out waiting for a slot (project: "@ + request.project
                        + ")"@,
                    kind: "timeout"@,
                },
            ),
            headers: seq![("x-request-id"@, request.id)],
        }),
        serving_timeout(request) == (ReplyView {
            status: 504,
            error: Some(
                ErrorView {
                    message: "Request timed out while being served (project: "@ + request.project
                        + ")"@,
                    kind: "timeout"@,
                },
            ),
            headers: seq![("x-request-id"@, request.id)],
        }),
        forall|error: QueueError|
            !(error is QueueFull) ==> #[trigger] enqueue_refusal(error, request) == (ReplyView {
                status: 500,
                error: None,
                headers: Seq::empty(),
            }),
        forall|error: QueueError|
            !(error is Evicted) && !(error is Timeout) ==> #[trigger] slot_refusal(error, request)
                == (ReplyView { status: 500, error: None, headers: Seq::empty() }),
{
    assert(enqueue_refusal(QueueError::QueueFull(name), request).headers =~= seq![
        ("retry-after"@, "5"@),
        ("x-request-id"@, request.id),
    ]);
    assert(slot_refusal(QueueError::Evicted(name), request).headers =~= seq![
        ("retry-after"@, "5"@),
        ("x-request-id"@, request.id),
    ]);
    assert(slot_refusal(QueueError::Timeout(name), request).headers =~= seq![
        ("x-request-id"@, request.id),
    ]);
    assert(serving_timeout(request).headers =~= seq![("x-request-id"@, request.id)]);
}

/// A reply is what it is made of: its status, its error with message and type,
/// and its header fields in order.
pub proof fn law_a_reply_is_what_it_is_made_of(
    reply: Reply,
    status: u16,
    kind: Seq<char>,
    message: Seq<char>,
    name: Seq<char>,
    value: Seq<char>,
)
    ensures
        reply@.status == reply.status,
        reply.error is None <==> reply@.error is None,
        reply.error matches Some(e) ==> reply@.error == Some(
            ErrorView { message: e.message@, kind: e.kind@ },
        ),
        reply@.headers.len() == reply.headers@.len(),
        forall|i: int|
            0 <= i < reply.headers@.len() ==> #[trigger] reply@.headers[i] == (
                reply.headers@[i].0@,
                reply.headers@[i].1@,
            ),
        bare(status) == (ReplyView { status, error: None, headers: Seq::empty() }),
        failure(status, kind, message) == (ReplyView {
            status,
            error: Some(ErrorView { message, kind }),
            headers: Seq::empty(),
        }),
        with_header(reply@, name, value) == (ReplyView {
            status: reply@.status,
            error: reply@.error,
            headers: reply@.headers.push((name, value)),
        }),
{
}

/// Lists of fields as plain sequences hold every field, in order.
pub proof fn law_lists_of_fields_hold_every_field(
    bytes: Seq<(String, Vec<u8>)>,
    texts: Seq<(String, String)>,
    value: Option<Vec<u8>>,
    text: Option<String>,
)
    ensures
        fields_of(bytes).len() == bytes.len(),
        forall|i: int|
            0 <= i < bytes.len() ==> #[trigger] fields_of(bytes)[i] == (
                bytes[i].0@,
                bytes[i].1@,
            ),
        pairs_of(texts).len() == texts.len(),
        forall|i: int|
            0 <= i < texts.len() ==> #[trigger] pairs_of(texts)[i] == (texts[i].0@, texts[i].1@),
        value is None <==> bytes_view(value) is None,
        value matches Some(v) ==> bytes_view(value) == Some(v@),
        text is None <==> text_view(text) is None,
        text matches Some(t) ==> text_view(text) == Some(t@),
{
}

/// A request id has thirty-six characters: lower-case hexadecimal digits, with
/// hyphens after the eighth, twelfth, sixteenth and twentieth of them, and with
/// the marks of a random number.
pub proof fn law_what_a_request_id_looks_like(id: Seq<char>)
    ensures
        is_request_id(id) <==> {
            &&& id.len() == 36
            &&& id[8] == '-' && id[13] == '-' && id[18] == '-' && id[23] == '-'
            &&& id[14] == '4'
            &&& id[19] == '8' || id[19] == '9' || id[19] == 'a' || id[19] == 'b'
            &&& forall|i: int|
                0 <= i < 36 && i != 8 && i != 13 && i != 18 && i != 23 ==> '0' <= #[trigger] id[i]
                    <= '9' || 'a' <= id[i] <= 'f'
        },
{
    if is_request_id(id) {
        assert(id[8] == '-' && id[13] == '-' && id[18] == '-' && id[23] == '-');
        assert forall|i: int|
            0 <= i < 36 && i != 8 && i != 13 && i != 18 && i != 23 implies '0' <= #[trigger] id[i]
            <= '9' || 'a' <= id[i] <= 'f' by {
            assert(is_hex(id[i]));
        }
    }
}

/// What is left of a time and what has gone by make up the time, until it is
/// used up. After that nothing is left.
pub proof fn law_time_left_and_time_gone_make_the_whole(limit: nat, elapsed: nat)
    ensures
        elapsed <= limit ==> left_of(limit, elapsed) + elapsed == limit,
        elapsed > limit ==> left_of(limit, elapsed) == 0,
{
}

} // verus!
