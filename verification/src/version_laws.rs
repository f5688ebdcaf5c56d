//! What a registry's answers come to: which requests are made, and which versions are listed.
use crate::error::AppErrorView;
use crate::config::VersionSourceConfigView;
use crate::github::{
    self, ApiVersionView, CachedPackages, CachedPackagesView, GithubClientView, PackageQueryView,
    PageReplyView,
};
use crate::ordered;
use crate::outside;
use crate::registry::{
    self, OciBodyView, OciQueryView, OciReplyView, OciRequestView, OciStateView, PackageVersion,
    PackageVersionView, RawVersionView, RegistryClientView, RegistryCredentialsView,
};
use crate::table;
use crate::text;
use crate::text_laws;
use vstd::prelude::*;

verus! {

/// A successful answer to a request for tags is listed as it is: one entry for each tag, in their
/// order, with the tag itself, unchanged, as its version and as its source. An answer without tags
/// lists none.
pub proof fn law_tags_are_taken_as_they_are(
    q: OciQueryView,
    status: u16,
    status_text: Seq<char>,
    challenge: Option<Seq<char>>,
    tags: Seq<Seq<char>>,
)
    requires
        q.request() is Tags,
        200 <= status < 300,
    ensures
        ({
            let answer = OciReplyView::Response {
                status,
                status_text,
                challenge,
                body: OciBodyView::Tags(Some(tags)),
            };
            match q.next(answer).state {
                OciStateView::Finished(Ok(list)) => {
                    &&& list.len() == tags.len()
                    &&& forall|i: int|
                        0 <= i < tags.len() ==> (#[trigger] list[i]).version == tags[i]
                            && list[i].source_id == tags[i] && list[i].digest is None
                            && list[i].created_at is None && list[i].updated_at is None
                },
                _ => false,
            }
        }),
        ({
            let answer = OciReplyView::Response {
                status,
                status_text,
                challenge,
                body: OciBodyView::Tags(None),
            };
            match q.next(answer).state {
                OciStateView::Finished(Ok(list)) => list.len() == 0,
                _ => false,
            }
        }),
{
}

/// Tags are asked for at the registry's own address, over HTTPS unless the address says otherwise,
/// first without a token. A token, where one was issued, goes with the second request, to the same
/// address.
pub proof fn law_tags_are_asked_for_at_the_registry(
    registry: Seq<char>,
    repository: Seq<char>,
    has_credentials: bool,
    token: Seq<char>,
    rest: Seq<char>,
)
    ensures
        ({
            let q = OciQueryView {
                registry,
                repository,
                has_credentials,
                state: OciStateView::Tags,
            };
            let path = "/v2/"@ + repository + "/tags/list"@;
            let given = registry == "https://"@ + rest || registry == "http://"@ + rest;
            let plain = !text::starts_with(registry, "https://"@) && !text::starts_with(
                registry,
                "http://"@,
            );
            &&& given ==> q.request() == (OciRequestView::Tags { url: registry + path, token: None })
            &&& plain ==> q.request() == (OciRequestView::Tags {
                url: "https://"@ + registry + path,
                token: None,
            })
            &&& (OciQueryView { state: OciStateView::Authorized(token), ..q }).request() == (
            OciRequestView::Tags { url: q.request()->url, token: Some(token) })
        }),
        registry::source_target(
            VersionSourceConfigView::OciRegistry { registry, repository },
        ) == (registry, repository),
        registry::source_target(
            VersionSourceConfigView::DockerHub { namespace: registry, repository },
        ) == ("registry-1.docker.io"@, registry + "/"@ + repository),
{
    let q = OciQueryView { registry, repository, has_credentials, state: OciStateView::Tags };
    let path = "/v2/"@ + repository + "/tags/list"@;
    text_laws::law_prefix_is_taken_off("https://"@, rest, registry);
    text_laws::law_prefix_is_taken_off("http://"@, rest, registry);
    assert(registry + "/v2/"@ + repository + "/tags/list"@ =~= registry + path);
    assert("https://"@ + registry + "/v2/"@ + repository + "/tags/list"@ =~= "https://"@ + registry
        + path);
}

/// What an answer makes of a query that asks for tags: it ends with them or with an error, unless
/// it asks for a token and the answer says where. One that came with a token is not asked again.
pub proof fn law_answers_to_tag_requests(
    q: OciQueryView,
    status: u16,
    status_text: Seq<char>,
    challenge: Option<Seq<char>>,
    body: OciBodyView,
    timeout: bool,
)
    requires
        q.request() is Tags,
    ensures
        ({
            let answer = OciReplyView::Response { status, status_text, challenge, body };
            let next = q.next(answer);
            let failed = |message: Seq<char>|
                OciStateView::Finished(Err(AppErrorView::Package(message)));
            &&& next.registry == q.registry && next.repository == q.repository
                && next.has_credentials == q.has_credentials
            &&& if status == 401 && q.request()->token is None {
                match challenge {
                    None => next.state == failed("OCI Registry 未提供 Bearer 认证信息"@),
                    Some(challenge) => match registry::parameter(challenge, "realm"@) {
                        None => next.state == failed("OCI Registry 认证地址无效"@),
                        Some(realm) => next.request() == (OciRequestView::Token {
                            realm,
                            scope: match registry::parameter(challenge, "scope"@) {
                                Some(scope) => scope,
                                None => "repository:"@ + q.repository + ":pull"@,
                            },
                            service: registry::parameter(challenge, "service"@),
                            with_credentials: q.has_credentials,
                        }),
                    },
                }
            } else if status < 200 || status >= 300 {
                next.state == failed("OCI Registry 标签请求失败 ("@ + status_text + ")"@)
            } else if body is Tags {
                next.state is Finished && next.state->Finished_0 is Ok
            } else {
                next.state == failed("OCI Registry 返回了无效响应"@)
            }
            &&& q.next(OciReplyView::Unreachable { timeout }).state == failed(
                if timeout {
                    "连接 OCI Registry 超时"@
                } else {
                    "无法连接 OCI Registry"@
                },
            )
        }),
{
}

/// What an answer makes of a query that asks for a token: a token is used as it was issued, the
/// field `token` before the field `access_token`; anything else ends the query with an error.
pub proof fn law_answers_to_token_requests(
    q: OciQueryView,
    status: u16,
    status_text: Seq<char>,
    challenge: Option<Seq<char>>,
    body: OciBodyView,
    timeout: bool,
)
    requires
        q.request() is Token,
    ensures
        ({
            let answer = OciReplyView::Response { status, status_text, challenge, body };
            let next = q.next(answer);
            let failed = |message: Seq<char>|
                OciStateView::Finished(Err(AppErrorView::Package(message)));
            let hint = if q.has_credentials {
                "已使用 Docker 登录凭据；请确认 Token 具有 read:packages 权限且账号可读取该镜像"@
            } else {
                "未找到该 Registry 的 Docker 登录凭据；私有镜像请先以服务用户执行 docker login"@
            };
            &&& if status < 200 || status >= 300 {
                next.state == failed(
                    "OCI Registry 无法签发拉取 Token ("@ + status_text + ")；"@ + hint,
                )
            } else {
                match body {
                    OciBodyView::Token { token, access_token } => if token is Some {
                        next.request() is Tags && next.request()->token == token
                    } else if access_token is Some {
                        next.request() is Tags && next.request()->token == access_token
                    } else {
                        next.state == failed("OCI Registry Token 响应缺少 Token"@)
                    },
                    _ => next.state == failed("OCI Registry Token 响应无效"@),
                }
            }
            &&& q.next(OciReplyView::Unreachable { timeout }).state == failed(
                if timeout {
                    "连接 OCI Registry 超时"@
                } else {
                    "无法连接 OCI Registry"@
                },
            )
        }),
{
}

/// A query that has ended stays as it is, and asks for nothing.
pub proof fn law_ended_queries_ask_for_nothing(q: OciQueryView, reply: OciReplyView)
    requires
        q.state is Finished,
    ensures
        q.request() == OciRequestView::Finished,
        q.next(reply) == q,
{
}

/// A part of a challenge: a name and a value, with white space around them and quotation marks
/// around the value.
pub open spec fn challenge_part(
    gap: Seq<char>,
    name: Seq<char>,
    open: nat,
    value: Seq<char>,
    close: nat,
    end: Seq<char>,
) -> Seq<char> {
    gap + (name + seq!['='] + (Seq::new(open, |i: int| '"') + value + Seq::new(
        close,
        |i: int| '"',
    ))) + end
}

/// Whether a name and a value can stand in a part of a challenge.
pub open spec fn fits_challenge(
    gap: Seq<char>,
    name: Seq<char>,
    value: Seq<char>,
    end: Seq<char>,
) -> bool {
    &&& text_laws::is_blank(gap) && text_laws::lacks(gap, ',')
    &&& text_laws::is_blank(end) && text_laws::lacks(end, ',')
    &&& name.len() > 0 && !text::is_space(name[0])
    &&& text_laws::lacks(name, '=') && text_laws::lacks(name, ',')
    &&& value.len() > 0 && text_laws::is_bare(value) && text_laws::lacks(value, ',')
    &&& value[0] != '"' && value.last() != '"'
}

/// A parameter of a challenge is what stands behind its name, without quotation marks around it, in
/// whichever of the parts between the commas it is found first. Only a challenge for a bearer token
/// has any.
pub proof fn law_challenges_are_read(
    name: Seq<char>,
    value: Seq<char>,
    gap: Seq<char>,
    open: nat,
    close: nat,
    end: Seq<char>,
    other: Seq<char>,
    given: Seq<char>,
    rest: Seq<char>,
    challenge: Seq<char>,
)
    requires
        fits_challenge(gap, name, value, end),
        fits_challenge(gap, other, given, end),
    ensures
        ({
            let part = challenge_part(gap, name, open, value, close, end);
            let before = challenge_part(gap, other, open, given, close, end);
            &&& registry::parameter("Bearer "@ + part, name) == Some(value)
            &&& registry::parameter("Bearer "@ + part + ","@ + rest, name) == Some(value)
            &&& other != name ==> registry::parameter("Bearer "@ + before + ","@ + rest, name)
                == registry::parameter("Bearer "@ + rest, name)
            &&& other != name ==> registry::parameter("Bearer "@ + before, name) is None
        }),
        !text::starts_with(challenge, "Bearer "@) ==> registry::parameter(challenge, name) is None,
{
    reveal_strlit(",");
    let part = challenge_part(gap, name, open, value, close, end);
    let before = challenge_part(gap, other, open, given, close, end);
    assert(","@ =~= seq![',']);
    lemma_parameter(gap, name, open, value, close, end);
    lemma_parameter(gap, other, open, given, close, end);
    lemma_bearer(part, rest, name);
    lemma_bearer(before, rest, name);
}

/// The first part of a challenge.
proof fn lemma_bearer(part: Seq<char>, rest: Seq<char>, name: Seq<char>)
    requires
        text_laws::lacks(part, ','),
    ensures
        registry::parameter("Bearer "@ + part, name) == registry::parameter_in(seq![part], name),
        registry::parameter("Bearer "@ + part + seq![','] + rest, name) == registry::parameter_in(
            seq![part] + text::split(rest, ','),
            name,
        ),
        registry::parameter("Bearer "@ + rest, name) == registry::parameter_in(
            text::split(rest, ','),
            name,
        ),
{
    text_laws::law_parts_follow_one_another(part, rest, ',');
    text_laws::law_prefix_is_taken_off("Bearer "@, part, part);
    text_laws::law_prefix_is_taken_off("Bearer "@, rest, rest);
    text_laws::law_prefix_is_taken_off("Bearer "@, part + seq![','] + rest, rest);
    assert("Bearer "@ + part + seq![','] + rest =~= "Bearer "@ + (part + seq![','] + rest));
}

/// One part of a challenge.
proof fn lemma_parameter(
    gap: Seq<char>,
    name: Seq<char>,
    open: nat,
    value: Seq<char>,
    close: nat,
    end: Seq<char>,
)
    requires
        fits_challenge(gap, name, value, end),
    ensures
        ({
            let part = challenge_part(gap, name, open, value, close, end);
            &&& text_laws::lacks(part, ',')
            &&& forall|wanted: Seq<char>, parts: Seq<Seq<char>>|
                #![trigger registry::parameter_in(seq![part] + parts, wanted)]
                registry::parameter_in(seq![part] + parts, wanted) == (if wanted == name {
                    Some(value)
                } else {
                    registry::parameter_in(parts, wanted)
                })
            &&& forall|wanted: Seq<char>|
                #![trigger registry::parameter_in(seq![part], wanted)]
                registry::parameter_in(seq![part], wanted) == (if wanted == name {
                    Some(value)
                } else {
                    None
                })
        }),
{
    let part = challenge_part(gap, name, open, value, close, end);
    let left = Seq::new(open, |i: int| '"');
    let right = Seq::new(close, |i: int| '"');
    let quoted = left + value + right;
    let core = name + seq!['='] + quoted;
    assert(text_laws::is_bare(core)) by {
        assert(core[0] == name[0]);
        if close > 0 {
            assert(core.last() == '"');
        } else {
            assert(core.last() == value.last());
        }
    }
    text_laws::law_white_space_around_is_taken_off(gap, core, end);
    text_laws::law_text_is_parted_at_the_first(name, quoted, '=');
    assert(quoted =~= left + (value + right));
    assert((value + right)[0] == value[0]);
    text_laws::law_characters_at_the_beginning_are_taken_off(value + right, '"', open);
    text_laws::law_characters_at_the_end_are_taken_off(value, '"', close);
    assert forall|i: int| 0 <= i < part.len() implies #[trigger] part[i] != ',' by {
        let k = gap.len() as int;
        let m = k + name.len();
        let v = m + 1 + open;
        let e = v + value.len() + close;
        if i < k {
            assert(part[i] == gap[i]);
        } else if i < m {
            assert(part[i] == name[i - k]);
        } else if i == m {
            assert(part[i] == '=');
        } else if i < v {
            assert(part[i] == left[i - m - 1]);
        } else if i < v + value.len() {
            assert(part[i] == value[i - v]);
        } else if i < e {
            assert(part[i] == right[i - v - value.len()]);
        } else {
            assert(part[i] == end[i - e]);
        }
    }
    assert forall|wanted: Seq<char>, parts: Seq<Seq<char>>|
        #![trigger registry::parameter_in(seq![part] + parts, wanted)]
        registry::parameter_in(seq![part] + parts, wanted) == (if wanted == name {
            Some(value)
        } else {
            registry::parameter_in(parts, wanted)
        }) by {
        assert((seq![part] + parts)[0] == part);
        assert((seq![part] + parts).drop_first() =~= parts);
    }
    assert forall|wanted: Seq<char>|
        #![trigger registry::parameter_in(seq![part], wanted)]
        registry::parameter_in(seq![part], wanted) == (if wanted == name {
            Some(value)
        } else {
            None
        }) by {
        assert(seq![part] + Seq::<Seq<char>>::empty() =~= seq![part]);
        assert(registry::parameter_in(seq![part] + Seq::<Seq<char>>::empty(), wanted)
            == registry::parameter_in(seq![part], wanted));
        assert(registry::parameter_in(Seq::<Seq<char>>::empty(), wanted) is None);
    }
}

/// The credentials that are kept for a registry are a name and a password with a colon between
/// them; the name holds none, and neither is empty. Anything else is no credentials.
pub proof fn law_credentials_are_read(
    bytes: Seq<u8>,
    username: Seq<char>,
    password: Seq<char>,
)
    ensures
        registry::credentials_in(None) is None,
        !vstd::utf8::valid_utf8(bytes) ==> registry::credentials_in(Some(bytes)) is None,
        registry::credentials_in(Some(bytes)) == Some(
            RegistryCredentialsView { username, password },
        ) <==> vstd::utf8::valid_utf8(bytes) && vstd::utf8::decode_utf8(bytes) == username + seq![
            ':',
        ] + password && text_laws::lacks(username, ':') && username.len() > 0 && password.len() > 0,
{
    let s = vstd::utf8::decode_utf8(bytes);
    if text_laws::lacks(username, ':') {
        text_laws::law_text_is_parted_at_the_first(username, password, ':');
    }
    text::lemma_find(s, ':');
    let i = text::find(s, ':');
    if i < s.len() {
        assert(s =~= s.take(i) + seq![':'] + s.skip(i + 1));
        assert(text_laws::lacks(s.take(i), ':'));
    }
}

/// The address of a registry names it with or without its scheme, and with or without slashes
/// behind it.
pub proof fn law_registries_are_named_in_many_ways(name: Seq<char>, slashes: nat, other: Seq<char>)
    requires
        name.len() > 0,
        name.last() != '/',
        !text::starts_with(name, "https://"@),
        !text::starts_with(name, "http://"@),
        other.len() > 0,
        other.last() != '/',
        !text::starts_with(other, "https://"@),
        !text::starts_with(other, "http://"@),
    ensures
        ({
            let tail = Seq::new(slashes, |i: int| '/');
            let hub = "registry-1.docker.io"@;
            let index = "index.docker.io/v1"@;
            let same = name == other || name == hub && other == index || name == index && other
                == hub;
            &&& registry::is_same_registry("https://"@ + name + tail, other) == same
            &&& registry::is_same_registry("http://"@ + name + tail, other) == same
            &&& registry::is_same_registry(name, other) == same
            &&& registry::is_same_registry(other, "https://"@ + name + tail) == same
        }),
{
    let tail = Seq::new(slashes, |i: int| '/');
    text_laws::law_prefix_is_taken_off("https://"@, name + tail, name);
    text_laws::law_prefix_is_taken_off("http://"@, name + tail, name);
    assert("https://"@ + name + tail =~= "https://"@ + (name + tail));
    assert("http://"@ + name + tail =~= "http://"@ + (name + tail));
    reveal_strlit("https://");
    reveal_strlit("http://");
    assert(!text::starts_with("http://"@ + (name + tail), "https://"@)) by {
        let s = "http://"@ + (name + tail);
        if text::starts_with(s, "https://"@) {
            assert(s[4] == s.take(8)[4]);
            assert(s[4] == ':');
            assert("https://"@[4] == 's');
        }
    }
    text_laws::law_characters_at_the_end_are_taken_off(name, '/', slashes);
    assert(text::trim_end_char(name, '/') == name);
    assert(text::trim_end_char(other, '/') == other);
}

/// The credentials for a registry are those of the first entry that names it and has any.
pub proof fn law_kept_credentials_are_the_first(
    auths: Seq<(Seq<char>, Option<Seq<char>>)>,
    registry: Seq<char>,
)
    ensures
        match registry::kept_auth(auths, registry) {
            Some(auth) => exists|i: int|
                0 <= i < auths.len() && (#[trigger] auths[i]).1 == Some(auth)
                    && registry::is_same_registry(auths[i].0, registry) && forall|j: int|
                    0 <= j < i ==> (#[trigger] auths[j]).1 is None || !registry::is_same_registry(
                        auths[j].0,
                        registry,
                    ),
            None => forall|j: int|
                0 <= j < auths.len() ==> (#[trigger] auths[j]).1 is None
                    || !registry::is_same_registry(auths[j].0, registry),
        },
    decreases auths.len(),
{
    if auths.len() > 0 {
        let rest = auths.drop_first();
        law_kept_credentials_are_the_first(rest, registry);
        if registry::is_same_registry(auths[0].0, registry) && auths[0].1 is Some {
            assert(auths[0].1 == Some(registry::kept_auth(auths, registry)->0));
        } else {
            match registry::kept_auth(rest, registry) {
                Some(auth) => {
                    let i = choose|i: int|
                        0 <= i < rest.len() && (#[trigger] rest[i]).1 == Some(auth)
                            && registry::is_same_registry(rest[i].0, registry) && forall|j: int|
                            0 <= j < i ==> (#[trigger] rest[j]).1 is None
                                || !registry::is_same_registry(rest[j].0, registry);
                    assert(auths[i + 1] == rest[i]);
                    assert forall|j: int| 0 <= j < i + 1 implies (#[trigger] auths[j]).1 is None
                        || !registry::is_same_registry(auths[j].0, registry) by {
                        if j > 0 {
                            assert(rest[j - 1] == auths[j]);
                        }
                    }
                },
                None => {
                    assert forall|j: int| 0 <= j < auths.len() implies (
                    #[trigger] auths[j]).1 is None || !registry::is_same_registry(
                        auths[j].0,
                        registry,
                    ) by {
                        if j > 0 {
                            assert(rest[j - 1] == auths[j]);
                        }
                    }
                },
            }
        }
    }
}

/// Which of two versions is listed first: of two semantic ones the one with the higher numbers, and
/// with the same numbers the later one; a semantic one before any other; and of two others the one
/// that was updated later, or, where neither was, the one whose name comes later.
pub proof fn law_order_of_versions(a: PackageVersionView, b: PackageVersionView)
    ensures
        ({
            let x = outside::semver_numbers(a.version);
            let y = outside::semver_numbers(b.version);
            let m = x->0;
            let n = y->0;
            let first = registry::version_before(a, b);
            &&& x is Some && y is None ==> first
            &&& x is None && y is Some ==> !first
            &&& x is Some && y is Some && m.0 != n.0 ==> first == (m.0 > n.0)
            &&& x is Some && y is Some && m.0 == n.0 && m.1 != n.1 ==> first == (m.1
                > n.1)
            &&& x is Some && y is Some && m.0 == n.0 && m.1 == n.1 && m.2 != n.2
                ==> first == (m.2 > n.2)
            &&& x is Some && x == y ==> first == (outside::semver_order(a.version, b.version) > 0)
            &&& x is None && y is None && a.updated_at == b.updated_at ==> first
                == ordered::precedes(b.version, a.version)
            &&& x is None && y is None && a.updated_at is Some && b.updated_at is None ==> first
            &&& x is None && y is None && a.updated_at is None && b.updated_at is Some ==> !first
            &&& x is None && y is None && a.updated_at is Some && b.updated_at is Some
                && a.updated_at->0.seconds != b.updated_at->0.seconds ==> first == (
            a.updated_at->0.seconds > b.updated_at->0.seconds)
            &&& x is None && y is None && a.updated_at is Some && b.updated_at is Some
                && a.updated_at->0.seconds == b.updated_at->0.seconds && a.updated_at->0.nanos
                != b.updated_at->0.nanos ==> first == (a.updated_at->0.nanos
                > b.updated_at->0.nanos)
        }),
{
}

/// Whether a listed version has what the first entry of its name says, and all of it.
pub open spec fn comes_from(v: PackageVersionView, raw: Seq<RawVersionView>, i: int) -> bool {
    &&& 0 <= i < raw.len()
    &&& v.version == raw[i].version
    &&& v.source_id == raw[i].source_id
    &&& v.digest == raw[i].digest
    &&& v.created_at == raw[i].created_at
    &&& v.updated_at == raw[i].updated_at
    &&& forall|j: int| 0 <= j < i ==> (#[trigger] raw[j]).version != raw[i].version
}

/// Every version that is listed comes, unchanged, from the first entry of its name. A pattern that
/// is none lists nothing but an error.
pub proof fn law_listed_versions_come_from_the_registry(
    raw: Seq<RawVersionView>,
    pattern: Seq<char>,
    k: int,
)
    ensures
        match outside::regex_error(pattern) {
            Some(error) => registry::normalized(raw, pattern) == Err::<
                Seq<PackageVersionView>,
                _,
            >(AppErrorView::Internal(error)),
            None => {
                &&& registry::normalized(raw, pattern) is Ok
                &&& 0 <= k < registry::normalized(raw, pattern)->Ok_0.len() ==> exists|i: int|
                    #[trigger] comes_from(registry::normalized(raw, pattern)->Ok_0[k], raw, i)
            },
        },
{
    broadcast use vstd::seq_lib::group_to_multiset_ensures;

    if outside::regex_error(pattern) is None {
        let list = registry::normalized(raw, pattern)->Ok_0;
        let found = registry::offered(raw, registry::matching(raw, pattern));
        if 0 <= k < list.len() {
            ordered::law_ranked_is_sorted::<PackageVersion>(found);
            assert(list.contains(list[k]));
            assert(list.to_multiset().count(list[k]) > 0);
            assert(found.contains(list[k]));
            let n = choose|n: int| 0 <= n < found.len() && found[n] == list[k];
            assert(raw.take(raw.len() as int) =~= raw);
            lemma_offered_first(raw, pattern, raw.len() as int, n);
        }
    }
}

/// What is offered of the first entries.
proof fn lemma_offered_first(raw: Seq<RawVersionView>, pattern: Seq<char>, m: int, n: int)
    requires
        0 <= m <= raw.len(),
        0 <= n < registry::offered(raw.take(m), registry::matching(raw, pattern)).len(),
    ensures
        exists|i: int|
            #[trigger] comes_from(
                registry::offered(raw.take(m), registry::matching(raw, pattern))[n],
                raw,
                i,
            ),
    decreases m,
{
    let wanted = registry::matching(raw, pattern);
    let now = raw.take(m);
    if m > 0 {
        assert(now.drop_last() =~= raw.take(m - 1));
        let rest = registry::offered(raw.take(m - 1), wanted);
        let last = now.last();
        assert(last == raw[m - 1]);
        if n < rest.len() {
            lemma_offered_first(raw, pattern, m - 1, n);
            assert(registry::offered(now, wanted)[n] == rest[n]);
        } else {
            assert forall|j: int| 0 <= j < m - 1 implies (#[trigger] raw[j]).version
                != last.version by {
                if raw[j].version == last.version {
                    lemma_offered_has(raw, pattern, m - 1, j);
                }
            }
            assert(comes_from(registry::offered(now, wanted)[n], raw, m - 1));
        }
    }
}

proof fn lemma_offered_has(raw: Seq<RawVersionView>, pattern: Seq<char>, m: int, j: int)
    requires
        0 <= j < m <= raw.len(),
        registry::matching(raw, pattern)[j],
    ensures
        registry::version_names(
            registry::offered(raw.take(m), registry::matching(raw, pattern)),
        ).contains(raw[j].version),
    decreases m,
{
    let wanted = registry::matching(raw, pattern);
    let now = raw.take(m);
    assert(now.drop_last() =~= raw.take(m - 1));
    let rest = registry::offered(raw.take(m - 1), wanted);
    let all = registry::offered(now, wanted);
    assert(now.last() == raw[m - 1]);
    if j < m - 1 {
        lemma_offered_has(raw, pattern, m - 1, j);
        let names = registry::version_names(rest);
        let k = choose|k: int| 0 <= k < names.len() && names[k] == raw[j].version;
        assert(registry::version_names(all)[k] == raw[j].version);
    } else if !registry::version_names(rest).contains(raw[j].version) {
        assert(registry::version_names(all)[rest.len() as int] == raw[j].version);
    }
}

/// What was stored is served as long as less time has gone by than the client keeps it for, counted
/// in nanoseconds; and never where it is asked for anew.
pub proof fn law_versions_are_kept_for_their_time(
    c: RegistryClientView,
    key: Seq<char>,
    versions: Seq<PackageVersionView>,
    at: u128,
    now: u128,
)
    ensures
        c.stored(key, versions, at).cached(key, true, now) is None,
        c.stored(key, versions, at).cached(key, false, now) == (if now - at < c.ttl_seconds
            * 1_000_000_000 && c.ttl_seconds > 0 {
            Some(versions)
        } else {
            None
        }),
{
    registry::law_stored_versions_are_served(c, key, versions, at, now, true, key);
    registry::law_stored_versions_are_served(c, key, versions, at, now, false, key);
}

/// What an answer makes of a query for a package: a full page is followed by the next one, a page
/// that is not full ends it with all that was read, and anything else with an error.
pub proof fn law_answers_to_package_requests(
    q: PackageQueryView,
    status: u16,
    status_text: Seq<char>,
    batch: Seq<ApiVersionView>,
    timeout: bool,
)
    requires
        q.result is None,
        q.page < u64::MAX,
    ensures
        ({
            let answer = |body: Option<Seq<ApiVersionView>>|
                q.next(PageReplyView::Response { status, status_text, body });
            let failed = |message: Seq<char>|
                PackageQueryView { result: Some(Err(AppErrorView::Package(message))), ..q };
            let refused = (if status == 401 {
                "GitHub Token 无效"@
            } else if status == 403 {
                "GitHub 拒绝访问或已限流"@
            } else if status == 404 {
                "GitHub 包不存在或无权访问"@
            } else {
                "GitHub API 请求失败"@
            }) + " ("@ + status_text + ")"@;
            &&& status < 200 || status >= 300 ==> answer(Some(batch)) == failed(refused)
                && answer(None) == failed(refused)
            &&& 200 <= status < 300 ==> answer(None) == failed("GitHub 返回了无效响应"@)
            &&& 200 <= status < 300 && batch.len() < 100 ==> answer(Some(batch)) == (
            PackageQueryView { raw: q.raw + batch, result: Some(Ok(())), ..q })
            &&& 200 <= status < 300 && batch.len() >= 100 ==> answer(Some(batch)) == (
            PackageQueryView { raw: q.raw + batch, page: (q.page + 1) as u64, ..q })
            &&& q.next(PageReplyView::Unreachable { timeout }) == failed(
                if timeout {
                    "连接 GitHub 超时"@
                } else {
                    "无法连接 GitHub"@
                },
            )
        }),
{
}

/// A package query that has ended stays as it is.
pub proof fn law_ended_package_queries_stay(q: PackageQueryView, reply: PageReplyView)
    requires
        q.result is Some,
    ensures
        q.next(reply) == q,
{
}

/// Which of two versions of a package is listed first: of two semantic ones the one with the higher
/// numbers, and with the same numbers the later one; a semantic one before any other; and of two
/// others the one that was updated later.
pub proof fn law_order_of_package_versions(
    a: github::PackageVersionView,
    b: github::PackageVersionView,
)
    ensures
        ({
            let x = outside::semver_numbers(a.version);
            let y = outside::semver_numbers(b.version);
            let first = github::version_before(a, b);
            let later = a.updated_at.seconds > b.updated_at.seconds || (a.updated_at.seconds
                == b.updated_at.seconds && a.updated_at.nanos > b.updated_at.nanos);
            &&& x is Some && y is None ==> first
            &&& x is None && y is Some ==> !first
            &&& x is Some && y is Some && outside::numbers_exceed(x->0, y->0) ==> first
            &&& x is Some && y is Some && outside::numbers_exceed(y->0, x->0) ==> !first
            &&& x is Some && x == y ==> first == (outside::semver_order(a.version, b.version) > 0)
            &&& x is None && y is None ==> first == later
        }),
{
}

/// Whether a listed version of a package is this tag of this image, with what is said of the image.
pub open spec fn is_tag_of(
    v: github::PackageVersionView,
    raw: Seq<ApiVersionView>,
    i: int,
    k: int,
) -> bool {
    &&& 0 <= i < raw.len()
    &&& 0 <= k < raw[i].tags.len()
    &&& v.version == raw[i].tags[k]
    &&& v.package_version_id == raw[i].id
    &&& v.digest == (if raw[i].name.len() > 0 {
        Some(raw[i].name)
    } else {
        None
    })
    &&& v.created_at == raw[i].created_at
    &&& v.updated_at == raw[i].updated_at
}

/// Every version of a package that is listed is a tag of an image that matches the pattern, with
/// what is said of that image; and every tag that matches is listed.
pub proof fn law_package_versions_are_the_matching_tags(
    raw: Seq<ApiVersionView>,
    pattern: Seq<char>,
    n: int,
    i: int,
    k: int,
)
    ensures
        match outside::regex_error(pattern) {
            Some(error) => github::normalized(raw, pattern) == Err::<
                Seq<github::PackageVersionView>,
                _,
            >(AppErrorView::Internal(error)),
            None => {
                let result = github::normalized(raw, pattern);
                &&& result is Ok
                &&& 0 <= n < result->Ok_0.len() ==> outside::regex_matches(
                    pattern,
                    result->Ok_0[n].version,
                ) && exists|a: int, b: int| #[trigger] is_tag_of(result->Ok_0[n], raw, a, b)
                &&& 0 <= i < raw.len() && 0 <= k < raw[i].tags.len() && outside::regex_matches(
                    pattern,
                    raw[i].tags[k],
                ) ==> exists|m: int|
                    0 <= m < result->Ok_0.len() && (#[trigger] result->Ok_0[m]).version
                        == raw[i].tags[k]
            },
        },
{
    broadcast use vstd::seq_lib::group_to_multiset_ensures;

    if outside::regex_error(pattern) is None {
        let list = github::normalized(raw, pattern)->Ok_0;
        let wanted = github::matching(raw, pattern);
        let found = github::offered(raw, wanted);
        ordered::law_ranked_is_sorted::<github::PackageVersion>(found);
        assert(raw.take(raw.len() as int) =~= raw);
        if 0 <= n < list.len() {
            assert(list.contains(list[n]));
            assert(list.to_multiset().count(list[n]) > 0);
            assert(found.contains(list[n]));
            let m = choose|m: int| 0 <= m < found.len() && found[m] == list[n];
            lemma_package_tag(raw, pattern, raw.len() as int, m);
        }
        if 0 <= i < raw.len() && 0 <= k < raw[i].tags.len() && outside::regex_matches(
            pattern,
            raw[i].tags[k],
        ) {
            let m = lemma_package_has(raw, pattern, raw.len() as int, i, k);
            assert(found.contains(found[m]));
            assert(found.to_multiset().count(found[m]) > 0);
            assert(list.contains(found[m]));
            let l = choose|l: int| 0 <= l < list.len() && list[l] == found[m];
            assert(list[l].version == raw[i].tags[k]);
        }
    }
}

proof fn lemma_tags_of(
    list: Seq<github::PackageVersionView>,
    raw: Seq<ApiVersionView>,
    pattern: Seq<char>,
    a: int,
    t: int,
    m: int,
)
    requires
        0 <= a < raw.len(),
        0 <= t <= raw[a].tags.len(),
        list.len() <= m < github::with_tags(
            list,
            raw[a],
            t,
            github::matching_tags(raw[a].tags, pattern),
        ).len(),
    ensures
        ({
            let all = github::with_tags(
                list,
                raw[a],
                t,
                github::matching_tags(raw[a].tags, pattern),
            );
            &&& outside::regex_matches(pattern, all[m].version)
            &&& exists|b: int| #[trigger] is_tag_of(all[m], raw, a, b)
        }),
    decreases t,
{
    let wanted = github::matching_tags(raw[a].tags, pattern);
    if t > 0 {
        let before = github::with_tags(list, raw[a], t - 1, wanted);
        let all = github::with_tags(list, raw[a], t, wanted);
        if m < before.len() {
            lemma_tags_of(list, raw, pattern, a, t - 1, m);
            assert(all[m] == before[m]);
        } else {
            assert(is_tag_of(all[m], raw, a, t - 1));
        }
    }
}

proof fn lemma_tags_keep(
    list: Seq<github::PackageVersionView>,
    v: ApiVersionView,
    t: int,
    wanted: Seq<bool>,
)
    ensures
        list.len() <= github::with_tags(list, v, t, wanted).len(),
        forall|m: int|
            0 <= m < list.len() ==> #[trigger] github::with_tags(list, v, t, wanted)[m] == list[m],
    decreases t,
{
    if 0 < t <= v.tags.len() {
        lemma_tags_keep(list, v, t - 1, wanted);
    }
}

proof fn lemma_package_tag(raw: Seq<ApiVersionView>, pattern: Seq<char>, n: int, m: int)
    requires
        0 <= n <= raw.len(),
        0 <= m < github::offered(raw.take(n), github::matching(raw, pattern)).len(),
    ensures
        ({
            let all = github::offered(raw.take(n), github::matching(raw, pattern));
            &&& outside::regex_matches(pattern, all[m].version)
            &&& exists|a: int, b: int| #[trigger] is_tag_of(all[m], raw, a, b)
        }),
    decreases n,
{
    let wanted = github::matching(raw, pattern);
    if n > 0 {
        let now = raw.take(n);
        assert(now.drop_last() =~= raw.take(n - 1));
        assert(now.last() == raw[n - 1]);
        let before = github::offered(raw.take(n - 1), wanted);
        let tags = github::matching_tags(raw[n - 1].tags, pattern);
        assert(wanted[n - 1] == tags);
        lemma_tags_keep(before, raw[n - 1], raw[n - 1].tags.len() as int, tags);
        let all = github::offered(now, wanted);
        if m < before.len() {
            lemma_package_tag(raw, pattern, n - 1, m);
            assert(all[m] == before[m]);
        } else {
            lemma_tags_of(before, raw, pattern, n - 1, raw[n - 1].tags.len() as int, m);
            let b = choose|b: int| #[trigger] is_tag_of(all[m], raw, n - 1, b);
            assert(is_tag_of(all[m], raw, n - 1, b));
        }
    }
}

proof fn lemma_tags_have(
    list: Seq<github::PackageVersionView>,
    v: ApiVersionView,
    t: int,
    wanted: Seq<bool>,
    k: int,
) -> (m: int)
    requires
        0 <= k < t <= v.tags.len(),
        wanted[k],
    ensures
        0 <= m < github::with_tags(list, v, t, wanted).len(),
        github::with_tags(list, v, t, wanted)[m].version == v.tags[k],
    decreases t,
{
    let before = github::with_tags(list, v, t - 1, wanted);
    if k < t - 1 {
        lemma_tags_have(list, v, t - 1, wanted, k)
    } else {
        let names = github::version_names(before);
        if names.contains(v.tags[k]) {
            let m = choose|m: int| 0 <= m < names.len() && names[m] == v.tags[k];
            assert(before[m].version == v.tags[k]);
            m
        } else {
            before.len() as int
        }
    }
}

proof fn lemma_package_has(
    raw: Seq<ApiVersionView>,
    pattern: Seq<char>,
    n: int,
    i: int,
    k: int,
) -> (m: int)
    requires
        0 <= i < n <= raw.len(),
        0 <= k < raw[i].tags.len(),
        outside::regex_matches(pattern, raw[i].tags[k]),
    ensures
        0 <= m < github::offered(raw.take(n), github::matching(raw, pattern)).len(),
        github::offered(raw.take(n), github::matching(raw, pattern))[m].version == raw[i].tags[k],
    decreases n,
{
    let wanted = github::matching(raw, pattern);
    let now = raw.take(n);
    assert(now.drop_last() =~= raw.take(n - 1));
    assert(now.last() == raw[n - 1]);
    let before = github::offered(raw.take(n - 1), wanted);
    let tags = github::matching_tags(raw[n - 1].tags, pattern);
    assert(wanted[n - 1] == tags);
    if i < n - 1 {
        let m = lemma_package_has(raw, pattern, n - 1, i, k);
        lemma_tags_keep(before, raw[n - 1], raw[n - 1].tags.len() as int, tags);
        m
    } else {
        lemma_tags_have(before, raw[n - 1], raw[n - 1].tags.len() as int, tags, k)
    }
}

/// The versions of a package are served as long as less time has gone by than the client keeps them
/// for, and never where they are asked for anew.
pub proof fn law_packages_are_kept_for_their_time(
    c: GithubClientView,
    key: Seq<char>,
    versions: Seq<github::PackageVersionView>,
    at: u128,
    now: u128,
    other: Seq<char>,
)
    ensures
        ({
            let kept = GithubClientView {
                cache: table::with_row::<CachedPackages>(
                    c.cache,
                    CachedPackagesView { key, at, versions },
                ),
                ..c
            };
            &&& kept.cached(key, true, now) is None
            &&& kept.cached(key, false, now) == (if now - at < c.ttl_seconds * 1_000_000_000
                && c.ttl_seconds > 0 {
                Some(versions)
            } else {
                None
            })
            &&& other != key ==> kept.cached(other, false, now) == c.cached(other, false, now)
        }),
{
    let new = CachedPackagesView { key, at, versions };
    table::law_row_is_found::<CachedPackages>(c.cache, new, seq![other]);
    table::law_row_is_found::<CachedPackages>(c.cache, new, seq![key]);
    assert(seq![other][0] == other && seq![key][0] == key);
}

} // verus!
