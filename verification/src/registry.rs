//! Image registries: how the tags of a repository are asked for, and which versions they make.
use crate::config::{VersionSourceConfig, VersionSourceConfigView};
use crate::duplicate::{self, Duplicate};
use crate::error::{AppError, AppErrorView};
use crate::ordered::{self, Ranked};
use crate::outside;
use crate::table::{self, Keyed};
use crate::text;
use vstd::prelude::*;

verus! {

/// A point in time: seconds since 1970, and nanoseconds within the second.
#[derive(Clone, Copy, Debug, PartialEq, Eq, Structural)]
pub struct Timestamp {
    pub seconds: i64,
    pub nanos: u32,
}

impl DeepView for Timestamp {
    type V = Timestamp;

    open spec fn deep_view(&self) -> Timestamp {
        *self
    }
}

impl Duplicate for Timestamp {
    fn duplicate(&self) -> (r: Self) {
        *self
    }
}

/// A version that can be deployed.
#[derive(Debug)]
pub struct PackageVersion {
    pub version: String,
    pub source_id: String,
    pub digest: Option<String>,
    pub created_at: Option<Timestamp>,
    pub updated_at: Option<Timestamp>,
}

pub struct PackageVersionView {
    pub version: Seq<char>,
    pub source_id: Seq<char>,
    pub digest: Option<Seq<char>>,
    pub created_at: Option<Timestamp>,
    pub updated_at: Option<Timestamp>,
}

impl DeepView for PackageVersion {
    type V = PackageVersionView;

    open spec fn deep_view(&self) -> PackageVersionView {
        PackageVersionView {
            version: self.version.deep_view(),
            source_id: self.source_id.deep_view(),
            digest: self.digest.deep_view(),
            created_at: self.created_at.deep_view(),
            updated_at: self.updated_at.deep_view(),
        }
    }
}

impl Duplicate for PackageVersion {
    fn duplicate(&self) -> (r: Self) {
        PackageVersion {
            version: self.version.duplicate(),
            source_id: self.source_id.duplicate(),
            digest: self.digest.duplicate(),
            created_at: self.created_at.duplicate(),
            updated_at: self.updated_at.duplicate(),
        }
    }
}

/// A tag as a registry lists it.
#[derive(Debug)]
pub struct RawVersion {
    pub version: String,
    pub source_id: String,
    pub digest: Option<String>,
    pub created_at: Option<Timestamp>,
    pub updated_at: Option<Timestamp>,
}

pub struct RawVersionView {
    pub version: Seq<char>,
    pub source_id: Seq<char>,
    pub digest: Option<Seq<char>>,
    pub created_at: Option<Timestamp>,
    pub updated_at: Option<Timestamp>,
}

impl DeepView for RawVersion {
    type V = RawVersionView;

    open spec fn deep_view(&self) -> RawVersionView {
        RawVersionView {
            version: self.version.deep_view(),
            source_id: self.source_id.deep_view(),
            digest: self.digest.deep_view(),
            created_at: self.created_at.deep_view(),
            updated_at: self.updated_at.deep_view(),
        }
    }
}

impl Duplicate for RawVersion {
    fn duplicate(&self) -> (r: Self) {
        RawVersion {
            version: self.version.duplicate(),
            source_id: self.source_id.duplicate(),
            digest: self.digest.duplicate(),
            created_at: self.created_at.duplicate(),
            updated_at: self.updated_at.duplicate(),
        }
    }
}

/// A user name and a password for a registry.
#[derive(Debug)]
pub struct RegistryCredentials {
    pub username: String,
    pub password: String,
}

pub struct RegistryCredentialsView {
    pub username: Seq<char>,
    pub password: Seq<char>,
}

impl DeepView for RegistryCredentials {
    type V = RegistryCredentialsView;

    open spec fn deep_view(&self) -> RegistryCredentialsView {
        RegistryCredentialsView {
            username: self.username.deep_view(),
            password: self.password.deep_view(),
        }
    }
}

impl Duplicate for RegistryCredentials {
    fn duplicate(&self) -> (r: Self) {
        RegistryCredentials {
            username: self.username.duplicate(),
            password: self.password.duplicate(),
        }
    }
}

/// Whether `a` is later than `b`; a time is later than none.
pub open spec fn is_later(a: Option<Timestamp>, b: Option<Timestamp>) -> bool {
    match (a, b) {
        (Some(x), Some(y)) => x.seconds > y.seconds || (x.seconds == y.seconds && x.nanos > y.nanos),
        (Some(_), None) => true,
        (None, _) => false,
    }
}

pub fn later(a: &Option<Timestamp>, b: &Option<Timestamp>) -> (r: bool)
    ensures
        r == is_later(*a, *b),
{
    match (a, b) {
        (Some(x), Some(y)) => x.seconds > y.seconds || (x.seconds == y.seconds && x.nanos > y.nanos),
        (Some(_), None) => true,
        (None, _) => false,
    }
}

/// Whether a semantic version with the numbers `x` is above one with the numbers `y`, where
/// `order` says how versions with the same numbers compare. What has no numbers is no semantic
/// version, and neither above nor below any.
pub open spec fn is_above(
    x: Option<(u64, u64, u64)>,
    y: Option<(u64, u64, u64)>,
    order: i8,
) -> bool {
    match (x, y) {
        (Some(x), Some(y)) => outside::numbers_exceed(x, y) || (x == y && order > 0),
        _ => false,
    }
}

pub fn above(x: Option<(u64, u64, u64)>, y: Option<(u64, u64, u64)>, order: i8) -> (r: bool)
    ensures
        r == is_above(x, y, order),
{
    match (x, y) {
        (Some(x), Some(y)) => {
            if x.0 != y.0 {
                x.0 > y.0
            } else if x.1 != y.1 {
                x.1 > y.1
            } else if x.2 != y.2 {
                x.2 > y.2
            } else {
                order > 0
            }
        },
        _ => false,
    }
}

/// Whether two semantic versions are ordered as in a total order: only a version and itself are
/// equal, the order of the two turns round with them, and it carries over to any third version.
pub open spec fn order_is_sound(a: Seq<char>, b: Seq<char>) -> bool {
    &&& (outside::semver_order(a, b) == 0) == (a == b)
    &&& outside::semver_order(b, a) == -outside::semver_order(a, b)
    &&& forall|c: Seq<char>|
        outside::semver_numbers(c) is Some && outside::semver_order(a, b) >= 0
            && outside::semver_order(b, c) >= 0 ==> (#[trigger] outside::semver_order(a, c)) >= 0
    &&& forall|c: Seq<char>|
        outside::semver_numbers(c) is Some && outside::semver_order(a, b) <= 0
            && outside::semver_order(b, c) <= 0 ==> (#[trigger] outside::semver_order(a, c)) <= 0
}

/// The numbers of two versions, and how the versions compare where both are semantic versions.
pub(crate) fn compare(a: &str, b: &str) -> (r: (
    Option<(u64, u64, u64)>,
    Option<(u64, u64, u64)>,
    i8,
))
    ensures
        r.0 == outside::semver_numbers(a@),
        r.1 == outside::semver_numbers(b@),
        r.0 is Some && r.1 is Some ==> r.2 == outside::semver_order(a@, b@),
        r.0 is Some && r.1 is Some ==> order_is_sound(a@, b@),
{
    let x = outside::parse_version(a);
    let y = outside::parse_version(b);
    if x.is_some() && y.is_some() {
        (x, y, outside::order_versions(a, b))
    } else {
        (x, y, 0)
    }
}

/// Whether `a` is listed before `b`, where `x` and `y` are the numbers of their versions and
/// `order` says how these compare. Semantic versions come first, the highest of them before the
/// others. Of the other tags the last updated comes first, and of those updated at the same time
/// the last by name.
pub open spec fn outranks(
    a: PackageVersionView,
    b: PackageVersionView,
    x: Option<(u64, u64, u64)>,
    y: Option<(u64, u64, u64)>,
    order: i8,
) -> bool {
    match (x, y) {
        (Some(_), Some(_)) => is_above(x, y, order),
        (Some(_), None) => true,
        (None, Some(_)) => false,
        (None, None) => is_later(a.updated_at, b.updated_at) || (a.updated_at == b.updated_at
            && ordered::precedes(b.version, a.version)),
    }
}

pub fn ranks_above(
    a: &PackageVersion,
    b: &PackageVersion,
    x: Option<(u64, u64, u64)>,
    y: Option<(u64, u64, u64)>,
    order: i8,
) -> (r: bool)
    ensures
        r == outranks(a.deep_view(), b.deep_view(), x, y, order),
{
    match (x, y) {
        (Some(_), Some(_)) => above(x, y, order),
        (Some(_), None) => true,
        (None, Some(_)) => false,
        (None, None) => {
            later(&a.updated_at, &b.updated_at) || (!later(&b.updated_at, &a.updated_at)
                && ordered::comes_before(b.version.as_str(), a.version.as_str()))
        },
    }
}

/// Whether one version is listed before another.
pub open spec fn version_before(a: PackageVersionView, b: PackageVersionView) -> bool {
    outranks(
        a,
        b,
        outside::semver_numbers(a.version),
        outside::semver_numbers(b.version),
        outside::semver_order(a.version, b.version),
    )
}

proof fn lemma_version_ranks(a: PackageVersionView, b: PackageVersionView, c: PackageVersionView)
    requires
        outside::semver_numbers(a.version) is Some && outside::semver_numbers(b.version) is Some
            ==> order_is_sound(a.version, b.version),
    ensures
        version_before(a, b) ==> !version_before(b, a),
        !version_before(a, b) && !version_before(b, c) ==> !version_before(a, c),
{
    ordered::lemma_precedes_ranks(b.version, a.version, a.version);
    ordered::lemma_precedes_ranks(c.version, b.version, a.version);
    if let (Some(x), Some(y), Some(z)) = (
        outside::semver_numbers(a.version),
        outside::semver_numbers(b.version),
        outside::semver_numbers(c.version),
    ) {
        assert(outside::semver_order(b.version, a.version) == -outside::semver_order(
            a.version,
            b.version,
        ));
        if x == y && y == z && outside::semver_order(a.version, b.version) <= 0
            && outside::semver_order(b.version, c.version) <= 0 {
            assert(outside::semver_order(a.version, c.version) <= 0);
        }
    }
}

impl Ranked for PackageVersion {
    open spec fn before(a: PackageVersionView, b: PackageVersionView) -> bool {
        version_before(a, b)
    }

    fn ranks_before(&self, other: &Self) -> (r: bool) {
        let (x, y, order) = compare(self.version.as_str(), other.version.as_str());
        proof {
            let a = self.deep_view();
            let b = other.deep_view();
            lemma_version_ranks(a, b, b);
            assert forall|c: PackageVersionView|
                !Self::before(a, b) && !(#[trigger] Self::before(b, c)) implies !Self::before(a, c) by {
                lemma_version_ranks(a, b, c);
            }
        }
        ranks_above(self, other, x, y, order)
    }
}

pub open spec fn package_of(v: RawVersionView) -> PackageVersionView {
    PackageVersionView {
        version: v.version,
        source_id: v.source_id,
        digest: v.digest,
        created_at: v.created_at,
        updated_at: v.updated_at,
    }
}

pub open spec fn version_names(list: Seq<PackageVersionView>) -> Seq<Seq<char>> {
    list.map_values(|v: PackageVersionView| v.version)
}

/// Which of the tags match a pattern.
pub open spec fn matching(raw: Seq<RawVersionView>, pattern: Seq<char>) -> Seq<bool> {
    raw.map_values(|v: RawVersionView| outside::regex_matches(pattern, v.version))
}

/// The tags that are wanted, each of them once: as it stands there first.
pub open spec fn offered(raw: Seq<RawVersionView>, wanted: Seq<bool>) -> Seq<PackageVersionView>
    decreases raw.len(),
{
    if raw.len() == 0 {
        Seq::empty()
    } else {
        let rest = offered(raw.drop_last(), wanted);
        let last = raw.last();
        if wanted[raw.len() - 1] && !version_names(rest).contains(last.version) {
            rest.push(package_of(last))
        } else {
            rest
        }
    }
}

/// The versions that a list of tags makes.
pub open spec fn normalized(raw: Seq<RawVersionView>, pattern: Seq<char>) -> Result<
    Seq<PackageVersionView>,
    AppErrorView,
> {
    match outside::regex_error(pattern) {
        Some(error) => Err(AppErrorView::Internal(error)),
        None => Ok(ordered::ranked::<PackageVersion>(offered(raw, matching(raw, pattern)))),
    }
}

/// Whether a version is listed.
pub fn lists_version(list: &Vec<PackageVersion>, version: &str) -> (r: bool)
    ensures
        r == version_names(list.deep_view()).contains(version@),
{
    let ghost names = version_names(list.deep_view());
    let mut i: usize = 0;
    while i < list.len()
        invariant
            i <= list@.len(),
            names == version_names(list.deep_view()),
            forall|j: int| 0 <= j < i ==> #[trigger] names[j] != version@,
        decreases list@.len() - i,
    {
        proof {
            assert(names[i as int] == list@[i as int].version@);
        }
        if text::same(list[i].version.as_str(), version) {
            return true;
        }
        i = i + 1;
    }
    false
}

/// Lists the tags that are wanted, each of them once.
pub fn offer(raw: &Vec<RawVersion>, wanted: &Vec<bool>) -> (r: Vec<PackageVersion>)
    requires
        raw@.len() == wanted@.len(),
    ensures
        r.deep_view() == offered(raw.deep_view(), wanted@),
{
    let ghost all = raw.deep_view();
    let mut out: Vec<PackageVersion> = Vec::new();
    let mut i: usize = 0;
    proof {
        assert(out.deep_view() =~= offered(all.take(0), wanted@));
    }
    while i < raw.len()
        invariant
            i <= raw@.len(),
            raw@.len() == wanted@.len(),
            all == raw.deep_view(),
            out.deep_view() == offered(all.take(i as int), wanted@),
        decreases raw@.len() - i,
    {
        let item = &raw[i];
        let ghost before = out.deep_view();
        proof {
            assert(all.take(i + 1).drop_last() =~= all.take(i as int));
            assert(all.take(i + 1).last() == item.deep_view());
        }
        if wanted[i] && !lists_version(&out, item.version.as_str()) {
            out.push(
                PackageVersion {
                    version: item.version.clone(),
                    source_id: item.source_id.clone(),
                    digest: item.digest.duplicate(),
                    created_at: item.created_at,
                    updated_at: item.updated_at,
                },
            );
            proof {
                assert(out.deep_view() =~= before.push(package_of(item.deep_view())));
            }
        }
        i = i + 1;
    }
    proof {
        assert(all.take(i as int) =~= all);
    }
    out
}

fn match_tags(raw: &Vec<RawVersion>, pattern: &str) -> (r: Vec<bool>)
    requires
        outside::regex_error(pattern@) is None,
    ensures
        r@ == matching(raw.deep_view(), pattern@),
{
    let ghost all = matching(raw.deep_view(), pattern@);
    let mut out: Vec<bool> = Vec::new();
    while out.len() < raw.len()
        invariant
            out@.len() <= raw@.len(),
            outside::regex_error(pattern@) is None,
            all == matching(raw.deep_view(), pattern@),
            out@ =~= all.take(out@.len() as int),
        decreases raw@.len() - out@.len(),
    {
        let i = out.len();
        proof {
            assert(all[i as int] == outside::regex_matches(pattern@, raw@[i as int].version@));
        }
        out.push(outside::matches_pattern(pattern, raw[i].version.as_str()));
    }
    out
}

/// Turns the tags that a registry lists into versions that can be deployed. No version is listed
/// behind one that it comes before, so that the highest semantic version stands first.
pub fn normalize(raw: &Vec<RawVersion>, pattern: &str) -> (r: Result<Vec<PackageVersion>, AppError>)
    ensures
        duplicate::outcome(r) == normalized(raw.deep_view(), pattern@),
        r is Ok ==> ordered::in_order::<PackageVersion>(r->Ok_0.deep_view()),
{
    if let Some(error) = outside::check_pattern(pattern) {
        return Err(AppError::Internal(error));
    }
    let wanted = match_tags(raw, pattern);
    Ok(ordered::sort(&offer(raw, &wanted)))
}

/// A registry's name without its scheme and the slashes at its end.
pub open spec fn bare_registry(value: Seq<char>) -> Seq<char> {
    let name = match text::strip_prefix(value, "https://"@) {
        Some(rest) => rest,
        None => match text::strip_prefix(value, "http://"@) {
            Some(rest) => rest,
            None => value,
        },
    };
    text::trim_end_char(name, '/')
}

/// Whether a registry that Docker is logged in to is the one that is asked. Docker Hub goes by
/// two names.
pub open spec fn is_same_registry(configured: Seq<char>, requested: Seq<char>) -> bool {
    let a = bare_registry(configured);
    let b = bare_registry(requested);
    ||| a == b
    ||| a == "index.docker.io/v1"@ && b == "registry-1.docker.io"@
    ||| a == "registry-1.docker.io"@ && b == "index.docker.io/v1"@
}

fn registry_name(value: &str) -> (r: String)
    ensures
        r@ == bare_registry(value@),
{
    let name = match text::without_prefix(value, "https://") {
        Some(rest) => rest,
        None => match text::without_prefix(value, "http://") {
            Some(rest) => rest,
            None => value.to_owned(),
        },
    };
    text::trimmed_end_char(name.as_str(), '/')
}

pub fn same_registry(configured: &str, requested: &str) -> (r: bool)
    ensures
        r == is_same_registry(configured@, requested@),
{
    let a = registry_name(configured);
    let b = registry_name(requested);
    text::same(a.as_str(), b.as_str()) || (text::same(a.as_str(), "index.docker.io/v1")
        && text::same(b.as_str(), "registry-1.docker.io")) || (text::same(
        a.as_str(),
        "registry-1.docker.io",
    ) && text::same(b.as_str(), "index.docker.io/v1"))
}

/// What decoded credentials say: a user name and a password, neither of them empty.
pub open spec fn credentials_in(bytes: Option<Seq<u8>>) -> Option<RegistryCredentialsView> {
    match bytes {
        Some(bytes) => if vstd::utf8::valid_utf8(bytes) {
            match text::split_once(vstd::utf8::decode_utf8(bytes), ':') {
                Some((username, password)) => if username.len() > 0 && password.len() > 0 {
                    Some(RegistryCredentialsView { username, password })
                } else {
                    None
                },
                None => None,
            }
        } else {
            None
        },
        None => None,
    }
}

/// Reads credentials from their decoded bytes.
pub fn read_credentials(bytes: Option<Vec<u8>>) -> (r: Option<RegistryCredentials>)
    ensures
        r.deep_view() == credentials_in(bytes.deep_view()),
{
    match bytes {
        None => None,
        Some(bytes) => {
            proof {
                assert(bytes.deep_view() =~= bytes@);
            }
            match outside::text_from_utf8(bytes) {
                None => None,
                Some(decoded) => match text::cut_once(decoded.as_str(), ':') {
                    None => None,
                    Some((username, password)) => {
                        if username.as_str().unicode_len() > 0 && password.as_str().unicode_len()
                            > 0 {
                            Some(RegistryCredentials { username, password })
                        } else {
                            None
                        }
                    },
                },
            }
        },
    }
}

/// Reads the credentials that Docker keeps in its configuration.
pub fn decode_docker_auth(auth: &str) -> (r: Option<RegistryCredentials>)
    ensures
        r.deep_view() == credentials_in(outside::base64_bytes(auth@)),
{
    read_credentials(outside::decode_base64(auth))
}

/// What Docker keeps for the first entry of a registry that has something to keep.
pub open spec fn kept_auth(
    auths: Seq<(Seq<char>, Option<Seq<char>>)>,
    registry: Seq<char>,
) -> Option<Seq<char>>
    decreases auths.len(),
{
    if auths.len() == 0 {
        None
    } else if is_same_registry(auths[0].0, registry) && auths[0].1 is Some {
        auths[0].1
    } else {
        kept_auth(auths.drop_first(), registry)
    }
}

/// The credentials for a registry among those that Docker keeps.
pub fn registry_credentials(auths: &Vec<(String, Option<String>)>, registry: &str) -> (r: Option<
    RegistryCredentials,
>)
    ensures
        r.deep_view() == (match kept_auth(auths.deep_view(), registry@) {
            Some(auth) => credentials_in(outside::base64_bytes(auth)),
            None => None,
        }),
{
    let ghost all = auths.deep_view();
    let mut i: usize = 0;
    proof {
        assert(all.skip(0) =~= all);
    }
    while i < auths.len()
        invariant
            i <= auths@.len(),
            all == auths.deep_view(),
            kept_auth(all.skip(i as int), registry@) == kept_auth(all, registry@),
        decreases auths@.len() - i,
    {
        proof {
            assert(all.skip(i as int)[0] == auths@[i as int].deep_view());
            assert(all.skip(i as int).drop_first() =~= all.skip(i + 1));
        }
        if same_registry(auths[i].0.as_str(), registry) {
            if let Some(auth) = &auths[i].1 {
                return decode_docker_auth(auth.as_str());
            }
        }
        i = i + 1;
    }
    None
}

/// The value of the first of these parts that sets the parameter.
pub open spec fn parameter_in(parts: Seq<Seq<char>>, name: Seq<char>) -> Option<Seq<char>>
    decreases parts.len(),
{
    if parts.len() == 0 {
        None
    } else {
        match text::split_once(text::trim(parts[0]), '=') {
            Some((key, value)) if key == name => Some(
                text::trim_end_char(text::trim_start_char(value, '"'), '"'),
            ),
            _ => parameter_in(parts.drop_first(), name),
        }
    }
}

/// A parameter of a `Bearer` challenge.
pub open spec fn parameter(challenge: Seq<char>, name: Seq<char>) -> Option<Seq<char>> {
    match text::strip_prefix(challenge, "Bearer "@) {
        Some(value) => parameter_in(text::split(value, ','), name),
        None => None,
    }
}

pub fn challenge_parameter(challenge: &str, name: &str) -> (r: Option<String>)
    ensures
        r.deep_view() == parameter(challenge@, name@),
{
    let value = match text::without_prefix(challenge, "Bearer ") {
        Some(value) => value,
        None => {
            return None;
        },
    };
    let parts = text::pieces(value.as_str(), ',');
    let ghost all = parts.deep_view();
    let mut i: usize = 0;
    proof {
        assert(all.skip(0) =~= all);
    }
    while i < parts.len()
        invariant
            i <= parts@.len(),
            all == parts.deep_view(),
            parameter_in(all.skip(i as int), name@) == parameter(challenge@, name@),
        decreases parts@.len() - i,
    {
        proof {
            assert(all.skip(i as int)[0] == parts@[i as int]@);
            assert(all.skip(i as int).drop_first() =~= all.skip(i + 1));
        }
        let part = text::trimmed(parts[i].as_str());
        if let Some((key, value)) = text::cut_once(part.as_str(), '=') {
            if text::same(key.as_str(), name) {
                let open = text::trimmed_start_char(value.as_str(), '"');
                return Some(text::trimmed_end_char(open.as_str(), '"'));
            }
        }
        i = i + 1;
    }
    None
}

/// What a version source is asked, in a form that every registry understands.
pub open spec fn source_target(source: VersionSourceConfigView) -> (Seq<char>, Seq<char>) {
    match source {
        VersionSourceConfigView::DockerHub { namespace, repository } => (
            "registry-1.docker.io"@,
            namespace + "/"@ + repository,
        ),
        VersionSourceConfigView::OciRegistry { registry, repository } => (registry, repository),
    }
}

/// The registry that a version source is asked through.
pub fn source_registry(source: &VersionSourceConfig) -> (r: String)
    ensures
        r@ == source_target(source.deep_view()).0,
{
    match source {
        VersionSourceConfig::DockerHub { .. } => "registry-1.docker.io".to_owned(),
        VersionSourceConfig::OciRegistry { registry, .. } => registry.clone(),
    }
}

/// How many tags a registry is asked for.
pub const TAGS_PER_PAGE: u32 = 1000;

/// What is being asked of a registry.
#[derive(Debug)]
pub enum OciRequest {
    /// `TAGS_PER_PAGE` tags, with a token where one was issued.
    Tags { url: String, token: Option<String> },
    /// A token for reading the tags, with the credentials where there are any.
    Token { realm: String, scope: String, service: Option<String>, with_credentials: bool },
    /// Nothing more.
    Finished,
}

pub enum OciRequestView {
    Tags { url: Seq<char>, token: Option<Seq<char>> },
    Token { realm: Seq<char>, scope: Seq<char>, service: Option<Seq<char>>, with_credentials: bool },
    Finished,
}

impl DeepView for OciRequest {
    type V = OciRequestView;

    open spec fn deep_view(&self) -> OciRequestView {
        match self {
            OciRequest::Tags { url, token } => OciRequestView::Tags {
                url: url@,
                token: token.deep_view(),
            },
            OciRequest::Token { realm, scope, service, with_credentials } => OciRequestView::Token {
                realm: realm@,
                scope: scope@,
                service: service.deep_view(),
                with_credentials: *with_credentials,
            },
            OciRequest::Finished => OciRequestView::Finished,
        }
    }
}

/// What the body of a response holds, read as what was asked for.
#[derive(Debug)]
pub enum OciBody {
    Invalid,
    Tags(Option<Vec<String>>),
    Token { token: Option<String>, access_token: Option<String> },
}

pub enum OciBodyView {
    Invalid,
    Tags(Option<Seq<Seq<char>>>),
    Token { token: Option<Seq<char>>, access_token: Option<Seq<char>> },
}

impl DeepView for OciBody {
    type V = OciBodyView;

    open spec fn deep_view(&self) -> OciBodyView {
        match self {
            OciBody::Invalid => OciBodyView::Invalid,
            OciBody::Tags(tags) => OciBodyView::Tags(tags.deep_view()),
            OciBody::Token { token, access_token } => OciBodyView::Token {
                token: token.deep_view(),
                access_token: access_token.deep_view(),
            },
        }
    }
}

/// What a registry answered.
#[derive(Debug)]
pub enum OciReply {
    Unreachable { timeout: bool },
    Response { status: u16, status_text: String, challenge: Option<String>, body: OciBody },
}

pub enum OciReplyView {
    Unreachable { timeout: bool },
    Response {
        status: u16,
        status_text: Seq<char>,
        challenge: Option<Seq<char>>,
        body: OciBodyView,
    },
}

impl DeepView for OciReply {
    type V = OciReplyView;

    open spec fn deep_view(&self) -> OciReplyView {
        match self {
            OciReply::Unreachable { timeout } => OciReplyView::Unreachable { timeout: *timeout },
            OciReply::Response { status, status_text, challenge, body } => OciReplyView::Response {
                status: *status,
                status_text: status_text@,
                challenge: challenge.deep_view(),
                body: body.deep_view(),
            },
        }
    }
}

/// How far a query has come.
#[derive(Debug)]
pub enum OciState {
    Tags,
    Token { realm: String, scope: String, service: Option<String> },
    Authorized(String),
    Finished(Result<Vec<RawVersion>, AppError>),
}

pub enum OciStateView {
    Tags,
    Token { realm: Seq<char>, scope: Seq<char>, service: Option<Seq<char>> },
    Authorized(Seq<char>),
    Finished(Result<Seq<RawVersionView>, AppErrorView>),
}

impl DeepView for OciState {
    type V = OciStateView;

    open spec fn deep_view(&self) -> OciStateView {
        match self {
            OciState::Tags => OciStateView::Tags,
            OciState::Token { realm, scope, service } => OciStateView::Token {
                realm: realm@,
                scope: scope@,
                service: service.deep_view(),
            },
            OciState::Authorized(token) => OciStateView::Authorized(token@),
            OciState::Finished(result) => OciStateView::Finished(duplicate::outcome(*result)),
        }
    }
}

/// A query for the tags of a repository.
#[derive(Debug)]
pub struct OciQuery {
    registry: String,
    repository: String,
    has_credentials: bool,
    state: OciState,
}

pub struct OciQueryView {
    pub registry: Seq<char>,
    pub repository: Seq<char>,
    pub has_credentials: bool,
    pub state: OciStateView,
}

impl DeepView for OciQuery {
    type V = OciQueryView;

    closed spec fn deep_view(&self) -> OciQueryView {
        OciQueryView {
            registry: self.registry@,
            repository: self.repository@,
            has_credentials: self.has_credentials,
            state: self.state.deep_view(),
        }
    }
}

pub open spec fn package_error(message: Seq<char>) -> OciStateView {
    OciStateView::Finished(Err(AppErrorView::Package(message)))
}

pub open spec fn is_success(status: u16) -> bool {
    200 <= status < 300
}

/// A tag of which only the name is known.
pub open spec fn bare_tag(tag: Seq<char>) -> RawVersionView {
    RawVersionView {
        version: tag,
        source_id: tag,
        digest: None,
        created_at: None,
        updated_at: None,
    }
}

pub open spec fn bare_tags(tags: Option<Seq<Seq<char>>>) -> Seq<RawVersionView> {
    match tags {
        Some(tags) => tags.map_values(|tag: Seq<char>| bare_tag(tag)),
        None => Seq::empty(),
    }
}

pub open spec fn unreachable_text(timeout: bool) -> Seq<char> {
    if timeout {
        "连接 OCI Registry 超时"@
    } else {
        "无法连接 OCI Registry"@
    }
}

pub open spec fn tags_result(status: u16, status_text: Seq<char>, body: OciBodyView) -> OciStateView {
    if !is_success(status) {
        package_error("OCI Registry 标签请求失败 ("@ + status_text + ")"@)
    } else {
        match body {
            OciBodyView::Tags(tags) => OciStateView::Finished(Ok(bare_tags(tags))),
            _ => package_error("OCI Registry 返回了无效响应"@),
        }
    }
}

/// What a registry that wants a token has to be asked for one.
pub open spec fn challenged(challenge: Option<Seq<char>>, repository: Seq<char>) -> OciStateView {
    match challenge {
        None => package_error("OCI Registry 未提供 Bearer 认证信息"@),
        Some(challenge) => match parameter(challenge, "realm"@) {
            None => package_error("OCI Registry 认证地址无效"@),
            Some(realm) => OciStateView::Token {
                realm,
                scope: match parameter(challenge, "scope"@) {
                    Some(scope) => scope,
                    None => "repository:"@ + repository + ":pull"@,
                },
                service: parameter(challenge, "service"@),
            },
        },
    }
}

pub open spec fn token_result(
    status: u16,
    status_text: Seq<char>,
    body: OciBodyView,
    has_credentials: bool,
) -> OciStateView {
    if !is_success(status) {
        package_error(
            "OCI Registry 无法签发拉取 Token ("@ + status_text + ")；"@ + (if has_credentials {
                "已使用 Docker 登录凭据；请确认 Token 具有 read:packages 权限且账号可读取该镜像"@
            } else {
                "未找到该 Registry 的 Docker 登录凭据；私有镜像请先以服务用户执行 docker login"@
            }),
        )
    } else {
        match body {
            OciBodyView::Token { token: Some(token), .. } => OciStateView::Authorized(token),
            OciBodyView::Token { token: None, access_token: Some(token) } =>
                OciStateView::Authorized(token),
            OciBodyView::Token { .. } => package_error("OCI Registry Token 响应缺少 Token"@),
            _ => package_error("OCI Registry Token 响应无效"@),
        }
    }
}

impl OciQueryView {
    pub open spec fn url(self) -> Seq<char> {
        (if text::starts_with(self.registry, "http://"@) || text::starts_with(
            self.registry,
            "https://"@,
        ) {
            self.registry
        } else {
            "https://"@ + self.registry
        }) + "/v2/"@ + self.repository + "/tags/list"@
    }

    /// What is asked next.
    pub open spec fn request(self) -> OciRequestView {
        match self.state {
            OciStateView::Tags => OciRequestView::Tags { url: self.url(), token: None },
            OciStateView::Authorized(token) => OciRequestView::Tags {
                url: self.url(),
                token: Some(token),
            },
            OciStateView::Token { realm, scope, service } => OciRequestView::Token {
                realm,
                scope,
                service,
                with_credentials: self.has_credentials,
            },
            OciStateView::Finished(_) => OciRequestView::Finished,
        }
    }

    pub open spec fn next_state(self, reply: OciReplyView) -> OciStateView {
        match (self.state, reply) {
            (OciStateView::Finished(_), _) => self.state,
            (_, OciReplyView::Unreachable { timeout }) => package_error(unreachable_text(timeout)),
            (
                OciStateView::Tags,
                OciReplyView::Response { status, status_text, challenge, body },
            ) => if status == 401 {
                challenged(challenge, self.repository)
            } else {
                tags_result(status, status_text, body)
            },
            (
                OciStateView::Authorized(_),
                OciReplyView::Response { status, status_text, challenge, body },
            ) => tags_result(status, status_text, body),
            (
                OciStateView::Token { .. },
                OciReplyView::Response { status, status_text, challenge, body },
            ) => token_result(status, status_text, body, self.has_credentials),
        }
    }

    pub open spec fn next(self, reply: OciReplyView) -> OciQueryView {
        OciQueryView { state: self.next_state(reply), ..self }
    }
}

fn failure(message: String) -> (r: OciState)
    ensures
        r.deep_view() == package_error(message@),
{
    OciState::Finished(Err(AppError::Package(message)))
}

fn success(status: u16) -> (r: bool)
    ensures
        r == is_success(status),
{
    200 <= status && status < 300
}

fn raw_versions(tags: &Option<Vec<String>>) -> (r: Vec<RawVersion>)
    ensures
        r.deep_view() == bare_tags(tags.deep_view()),
{
    let mut out: Vec<RawVersion> = Vec::new();
    match tags {
        None => {
            proof {
                assert(out.deep_view() =~= bare_tags(tags.deep_view()));
            }
        },
        Some(list) => {
            let mut i: usize = 0;
            while i < list.len()
                invariant
                    i <= list@.len(),
                    out@.len() == i,
                    forall|j: int|
                        0 <= j < i ==> #[trigger] out@[j].deep_view() == bare_tag(list@[j]@),
                decreases list@.len() - i,
            {
                out.push(
                    RawVersion {
                        version: list[i].clone(),
                        source_id: list[i].clone(),
                        digest: None,
                        created_at: None,
                        updated_at: None,
                    },
                );
                i = i + 1;
            }
            proof {
                assert forall|j: int| 0 <= j < out@.len() implies out.deep_view()[j] == bare_tags(
                    tags.deep_view(),
                )[j] by {
                    assert(out@[j].deep_view() == bare_tag(list@[j]@));
                }
                assert(out.deep_view() =~= bare_tags(tags.deep_view()));
            }
        },
    }
    out
}

fn read_tags(status: u16, status_text: &str, body: &OciBody) -> (r: OciState)
    ensures
        r.deep_view() == tags_result(status, status_text@, body.deep_view()),
{
    if !success(status) {
        return failure(text::joined3("OCI Registry 标签请求失败 (", status_text, ")"));
    }
    match body {
        OciBody::Tags(tags) => OciState::Finished(Ok(raw_versions(tags))),
        _ => failure("OCI Registry 返回了无效响应".to_owned()),
    }
}

fn read_challenge(challenge: &Option<String>, repository: &str) -> (r: OciState)
    ensures
        r.deep_view() == challenged(challenge.deep_view(), repository@),
{
    match challenge {
        None => failure("OCI Registry 未提供 Bearer 认证信息".to_owned()),
        Some(challenge) => match challenge_parameter(challenge.as_str(), "realm") {
            None => failure("OCI Registry 认证地址无效".to_owned()),
            Some(realm) => {
                let scope = match challenge_parameter(challenge.as_str(), "scope") {
                    Some(scope) => scope,
                    None => text::joined3("repository:", repository, ":pull"),
                };
                let service = challenge_parameter(challenge.as_str(), "service");
                OciState::Token { realm, scope, service }
            },
        },
    }
}

fn read_token(status: u16, status_text: &str, body: &OciBody, has_credentials: bool) -> (r: OciState)
    ensures
        r.deep_view() == token_result(status, status_text@, body.deep_view(), has_credentials),
{
    if !success(status) {
        let mut message = text::joined3("OCI Registry 无法签发拉取 Token (", status_text, ")；");
        if has_credentials {
            message.append(
                "已使用 Docker 登录凭据；请确认 Token 具有 read:packages 权限且账号可读取该镜像",
            );
        } else {
            message.append(
                "未找到该 Registry 的 Docker 登录凭据；私有镜像请先以服务用户执行 docker login",
            );
        }
        return failure(message);
    }
    match body {
        OciBody::Token { token, access_token } => match token {
            Some(token) => OciState::Authorized(token.clone()),
            None => match access_token {
                Some(token) => OciState::Authorized(token.clone()),
                None => failure("OCI Registry Token 响应缺少 Token".to_owned()),
            },
        },
        _ => failure("OCI Registry Token 响应无效".to_owned()),
    }
}

impl OciQuery {
    /// A query for the tags of a version source. `has_credentials` says whether there are
    /// credentials for its registry.
    pub fn new(source: &VersionSourceConfig, has_credentials: bool) -> (r: Self)
        ensures
            r.deep_view() == (OciQueryView {
                registry: text::trim_end_char(source_target(source.deep_view()).0, '/'),
                repository: source_target(source.deep_view()).1,
                has_credentials,
                state: OciStateView::Tags,
            }),
    {
        let (registry, repository) = match source {
            VersionSourceConfig::DockerHub { namespace, repository } => (
                "registry-1.docker.io".to_owned(),
                text::joined3(namespace.as_str(), "/", repository.as_str()),
            ),
            VersionSourceConfig::OciRegistry { registry, repository } => (
                registry.clone(),
                repository.clone(),
            ),
        };
        OciQuery {
            registry: text::trimmed_end_char(registry.as_str(), '/'),
            repository,
            has_credentials,
            state: OciState::Tags,
        }
    }

    fn url(&self) -> (r: String)
        ensures
            r@ == self.deep_view().url(),
    {
        let registry = self.registry.as_str();
        let mut url = if text::begins_with(registry, "http://") || text::begins_with(
            registry,
            "https://",
        ) {
            registry.to_owned()
        } else {
            text::joined2("https://", registry)
        };
        url.append("/v2/");
        url.append(self.repository.as_str());
        url.append("/tags/list");
        url
    }

    /// What is asked next. A request for tags asks for up to 1000 of them.
    pub fn request(&self) -> (r: OciRequest)
        ensures
            r.deep_view() == self.deep_view().request(),
    {
        match &self.state {
            OciState::Tags => OciRequest::Tags { url: self.url(), token: None },
            OciState::Authorized(token) => OciRequest::Tags {
                url: self.url(),
                token: Some(token.clone()),
            },
            OciState::Token { realm, scope, service } => OciRequest::Token {
                realm: realm.clone(),
                scope: scope.clone(),
                service: service.duplicate(),
                with_credentials: self.has_credentials,
            },
            OciState::Finished(_) => OciRequest::Finished,
        }
    }

    /// Tells the query what was answered.
    pub fn handle(&mut self, reply: &OciReply)
        ensures
            final(self).deep_view() == old(self).deep_view().next(reply.deep_view()),
    {
        let next: Option<OciState> = match (&self.state, reply) {
            (OciState::Finished(_), _) => None,
            (_, OciReply::Unreachable { timeout }) => Some(
                failure(
                    if *timeout {
                        "连接 OCI Registry 超时".to_owned()
                    } else {
                        "无法连接 OCI Registry".to_owned()
                    },
                ),
            ),
            (OciState::Tags, OciReply::Response { status, status_text, challenge, body }) => {
                if *status == 401 {
                    Some(read_challenge(challenge, self.repository.as_str()))
                } else {
                    Some(read_tags(*status, status_text.as_str(), body))
                }
            },
            (OciState::Authorized(_), OciReply::Response { status, status_text, challenge, body }) =>
                Some(read_tags(*status, status_text.as_str(), body)),
            (OciState::Token { .. }, OciReply::Response { status, status_text, challenge, body }) =>
                Some(read_token(*status, status_text.as_str(), body, self.has_credentials)),
        };
        if let Some(state) = next {
            self.state = state;
        }
    }

    /// The tags, or why there are none; nothing while the query is under way.
    pub fn result(&self) -> (r: Option<Result<Vec<RawVersion>, AppError>>)
        ensures
            match r {
                Some(result) => self.deep_view().state == OciStateView::Finished(
                    duplicate::outcome(result),
                ),
                None => !(self.deep_view().state is Finished),
            },
    {
        match &self.state {
            OciState::Finished(Ok(list)) => Some(Ok(list.duplicate())),
            OciState::Finished(Err(error)) => Some(Err(error.duplicate())),
            _ => None,
        }
    }
}

/// Credentials only ever go where the registry sends for a token, and never with a request for
/// tags.
pub proof fn law_credentials_go_with_token_requests_only(q: OciQueryView)
    ensures
        q.request() matches OciRequestView::Token { with_credentials, .. } ==> with_credentials
            == q.has_credentials && q.state is Token,
        q.request() is Tags && q.request()->token is Some ==> q.state is Authorized
            && q.request()->token == Some(q.state->Authorized_0),
{
}

/// A query ends after at most three answers.
pub proof fn law_query_ends(q: OciQueryView, a: OciReplyView, b: OciReplyView, c: OciReplyView)
    requires
        q.state is Tags,
    ensures
        q.next(a).next(b).next(c).state is Finished,
{
}

/// Versions as they were read at a point in time, in nanoseconds.
#[derive(Debug)]
pub struct CachedVersions {
    pub key: String,
    pub at: u128,
    pub versions: Vec<PackageVersion>,
}

pub struct CachedVersionsView {
    pub key: Seq<char>,
    pub at: u128,
    pub versions: Seq<PackageVersionView>,
}

impl DeepView for CachedVersions {
    type V = CachedVersionsView;

    open spec fn deep_view(&self) -> CachedVersionsView {
        CachedVersionsView {
            key: self.key.deep_view(),
            at: self.at,
            versions: self.versions.deep_view(),
        }
    }
}

impl Duplicate for CachedVersions {
    fn duplicate(&self) -> (r: Self) {
        CachedVersions {
            key: self.key.duplicate(),
            at: self.at,
            versions: self.versions.duplicate(),
        }
    }
}

impl Keyed for CachedVersions {
    open spec fn key(v: CachedVersionsView) -> Seq<Seq<char>> {
        seq![v.key]
    }

    fn key_texts(&self) -> (r: Vec<String>) {
        let r = text::list_of(&[self.key.as_str()]);
        proof {
            assert(r.deep_view() =~= Self::key(self.deep_view()));
        }
        r
    }
}

/// The versions that were read from registries, for as long as they are kept.
#[derive(Debug)]
pub struct RegistryClient {
    ttl_seconds: u64,
    cache: Vec<CachedVersions>,
}

pub struct RegistryClientView {
    pub ttl_seconds: u64,
    pub cache: Seq<CachedVersionsView>,
}

impl DeepView for RegistryClient {
    type V = RegistryClientView;

    closed spec fn deep_view(&self) -> RegistryClientView {
        RegistryClientView { ttl_seconds: self.ttl_seconds, cache: self.cache.deep_view() }
    }
}

/// The time since `at`; none where the clock stands before it.
pub open spec fn elapsed(at: u128, now: u128) -> int {
    if now > at {
        now - at
    } else {
        0
    }
}

pub open spec fn nanoseconds(seconds: u64) -> int {
    seconds * 1_000_000_000
}

/// Whether something read at `at` is older than it may be.
pub fn is_stale(at: u128, now: u128, seconds: u64) -> (r: bool)
    ensures
        r == (elapsed(at, now) >= nanoseconds(seconds)),
{
    let age: u128 = if now > at {
        now - at
    } else {
        0
    };
    age >= seconds as u128 * 1_000_000_000
}

impl RegistryClientView {
    /// The versions that are kept under a key, where they are fresh and not to be read anew.
    pub open spec fn cached(self, key: Seq<char>, refresh: bool, now: u128) -> Option<
        Seq<PackageVersionView>,
    > {
        match table::row::<CachedVersions>(self.cache, seq![key]) {
            Some(found) => if !refresh && elapsed(found.at, now) < nanoseconds(self.ttl_seconds) {
                Some(found.versions)
            } else {
                None
            },
            None => None,
        }
    }

    pub open spec fn stored(
        self,
        key: Seq<char>,
        versions: Seq<PackageVersionView>,
        now: u128,
    ) -> RegistryClientView {
        RegistryClientView {
            cache: table::with_row::<CachedVersions>(
                self.cache,
                CachedVersionsView { key, at: now, versions },
            ),
            ..self
        }
    }

    pub open spec fn without_project(self, project_id: Seq<char>) -> RegistryClientView {
        RegistryClientView { cache: drop_project(self.cache, project_id), ..self }
    }
}

/// The key of a service's versions.
pub open spec fn cache_key_of(project_id: Seq<char>, service_id: Seq<char>) -> Seq<char> {
    project_id + "/"@ + service_id
}

pub open spec fn drop_project(cache: Seq<CachedVersionsView>, project_id: Seq<char>) -> Seq<
    CachedVersionsView,
>
    decreases cache.len(),
{
    if cache.len() == 0 {
        cache
    } else if text::starts_with(cache.last().key, project_id + "/"@) {
        drop_project(cache.drop_last(), project_id)
    } else {
        drop_project(cache.drop_last(), project_id).push(cache.last())
    }
}

pub fn cache_key(project_id: &str, service_id: &str) -> (r: String)
    ensures
        r@ == cache_key_of(project_id@, service_id@),
{
    text::joined3(project_id, "/", service_id)
}

impl RegistryClient {
    pub fn new(ttl_seconds: u64) -> (r: Self)
        ensures
            r.deep_view() == (RegistryClientView { ttl_seconds, cache: Seq::empty() }),
    {
        let cache: Vec<CachedVersions> = Vec::new();
        proof {
            assert(cache.deep_view() =~= Seq::empty());
        }
        RegistryClient { ttl_seconds, cache }
    }

    /// The versions that are kept under a key. Where there are none, they have to be read.
    pub fn versions(&self, cache_key: &str, refresh: bool, now: u128) -> (r: Option<
        Vec<PackageVersion>,
    >)
        ensures
            r.deep_view() == self.deep_view().cached(cache_key@, refresh, now),
    {
        let key = text::list_of(&[cache_key]);
        proof {
            assert(key.deep_view() =~= seq![cache_key@]);
        }
        match table::find_row(&self.cache, &key) {
            Some(found) => {
                if !refresh && !is_stale(found.at, now, self.ttl_seconds) {
                    Some(found.versions.duplicate())
                } else {
                    None
                }
            },
            None => None,
        }
    }

    /// Keeps the versions that were read.
    pub fn store(&mut self, cache_key: &str, versions: Vec<PackageVersion>, now: u128)
        ensures
            final(self).deep_view() == old(self).deep_view().stored(
                cache_key@,
                versions.deep_view(),
                now,
            ),
    {
        table::put_row(
            &mut self.cache,
            CachedVersions { key: cache_key.to_owned(), at: now, versions },
        );
    }

    /// Forgets the versions of a project's services.
    pub fn invalidate_project(&mut self, project_id: &str)
        ensures
            final(self).deep_view() == old(self).deep_view().without_project(project_id@),
    {
        let prefix = text::joined2(project_id, "/");
        let ghost all = self.cache.deep_view();
        let mut out: Vec<CachedVersions> = Vec::new();
        let mut i: usize = 0;
        proof {
            assert(out.deep_view() =~= drop_project(all.take(0), project_id@));
        }
        while i < self.cache.len()
            invariant
                i <= self.cache@.len(),
                *self == *old(self),
                all == self.cache.deep_view(),
                prefix@ == project_id@ + "/"@,
                out.deep_view() == drop_project(all.take(i as int), project_id@),
            decreases self.cache@.len() - i,
        {
            let ghost before = out.deep_view();
            proof {
                assert(all.take(i + 1).drop_last() =~= all.take(i as int));
                assert(all.take(i + 1).last() == self.cache@[i as int].deep_view());
            }
            if !text::begins_with(self.cache[i].key.as_str(), prefix.as_str()) {
                out.push(self.cache[i].duplicate());
                proof {
                    assert(out.deep_view() =~= before.push(self.cache@[i as int].deep_view()));
                }
            }
            i = i + 1;
        }
        proof {
            assert(all.take(i as int) =~= all);
        }
        self.cache = out;
    }
}

/// What was stored is served until it is too old, unless it is asked for anew; other keys are
/// not touched.
pub proof fn law_stored_versions_are_served(
    c: RegistryClientView,
    key: Seq<char>,
    versions: Seq<PackageVersionView>,
    at: u128,
    now: u128,
    refresh: bool,
    other: Seq<char>,
)
    ensures
        c.stored(key, versions, at).cached(key, refresh, now) == (if !refresh && elapsed(at, now)
            < nanoseconds(c.ttl_seconds) {
            Some(versions)
        } else {
            None
        }),
        other != key ==> c.stored(key, versions, at).cached(other, refresh, now) == c.cached(
            other,
            refresh,
            now,
        ),
{
    let new = CachedVersionsView { key, at, versions };
    table::law_row_is_found::<CachedVersions>(c.cache, new, seq![other]);
    table::law_row_is_found::<CachedVersions>(c.cache, new, seq![key]);
    if other != key {
        assert(seq![other][0] == other && seq![key][0] == key);
    }
}

/// Nothing of a project is served once it was forgotten, and nothing of other projects is lost.
pub proof fn law_forgotten_projects_are_read_anew(
    c: RegistryClientView,
    project_id: Seq<char>,
    key: Seq<char>,
    refresh: bool,
    now: u128,
)
    ensures
        text::starts_with(key, project_id + "/"@) ==> c.without_project(project_id).cached(
            key,
            refresh,
            now,
        ) is None,
        !text::starts_with(key, project_id + "/"@) ==> c.without_project(project_id).cached(
            key,
            refresh,
            now,
        ) == c.cached(key, refresh, now),
{
    lemma_drop_project(c.cache, project_id, key);
}

proof fn lemma_drop_project(cache: Seq<CachedVersionsView>, project_id: Seq<char>, key: Seq<char>)
    ensures
        table::row::<CachedVersions>(drop_project(cache, project_id), seq![key]) == (
        if text::starts_with(key, project_id + "/"@) {
            None
        } else {
            table::row::<CachedVersions>(cache, seq![key])
        }),
    decreases cache.len(),
{
    if cache.len() > 0 {
        let front = cache.drop_last();
        lemma_drop_project(front, project_id, key);
        assert(cache =~= front.push(cache.last()));
        table::lemma_row_push::<CachedVersions>(front, cache.last(), seq![key]);
        assert((seq![cache.last().key] == seq![key]) == (cache.last().key == key)) by {
            assert(seq![cache.last().key][0] == cache.last().key && seq![key][0] == key);
        }
        if !text::starts_with(cache.last().key, project_id + "/"@) {
            table::lemma_row_push::<CachedVersions>(
                drop_project(front, project_id),
                cache.last(),
                seq![key],
            );
        }
    }
}

/// The key of a service belongs to its project.
pub proof fn law_cache_key_belongs_to_project(project_id: Seq<char>, service_id: Seq<char>)
    ensures
        text::starts_with(cache_key_of(project_id, service_id), project_id + "/"@),
{
    let prefix = project_id + "/"@;
    assert(cache_key_of(project_id, service_id).take(prefix.len() as int) =~= prefix);
}

/// The part of the order of versions that does not depend on what follows their numbers.
pub open spec fn plainly_before(a: PackageVersionView, b: PackageVersionView) -> bool {
    match (outside::semver_numbers(a.version), outside::semver_numbers(b.version)) {
        (Some(x), Some(y)) => outside::numbers_exceed(x, y),
        _ => version_before(a, b),
    }
}

proof fn lemma_plain_order(a: PackageVersionView, b: PackageVersionView, c: PackageVersionView)
    ensures
        plainly_before(a, b) ==> version_before(a, b) && !version_before(b, a),
        !plainly_before(b, a) && !plainly_before(c, b) ==> !plainly_before(c, a),
{
    ordered::lemma_precedes_irreflexive(a.version);
    ordered::lemma_precedes_total(a.version, b.version);
    ordered::lemma_precedes_total(b.version, c.version);
    ordered::lemma_precedes_total(a.version, c.version);
    if ordered::precedes(b.version, a.version) {
        ordered::lemma_precedes_asymmetric(b.version, a.version);
    }
    if ordered::precedes(a.version, b.version) {
        ordered::lemma_precedes_asymmetric(a.version, b.version);
    }
    if ordered::precedes(a.version, c.version) {
        ordered::lemma_precedes_asymmetric(a.version, c.version);
        if ordered::precedes(c.version, b.version) {
            ordered::lemma_precedes_transitive(a.version, c.version, b.version);
            ordered::lemma_precedes_asymmetric(a.version, b.version);
        }
        if ordered::precedes(b.version, a.version) {
            ordered::lemma_precedes_transitive(b.version, a.version, c.version);
        }
    }
}

/// Semantic versions are listed first, the highest numbers before the others; the other tags
/// follow, the last updated first, and those of the same time by their names. That versions with
/// the same numbers are in order too is what `normalize` says of its result.
pub proof fn law_versions_are_in_order(
    raw: Seq<RawVersionView>,
    pattern: Seq<char>,
    i: int,
    j: int,
)
    requires
        normalized(raw, pattern) is Ok,
        0 <= i < j < normalized(raw, pattern)->Ok_0.len(),
    ensures
        !plainly_before(normalized(raw, pattern)->Ok_0[j], normalized(raw, pattern)->Ok_0[i]),
{
    let coarse = |a: PackageVersionView, b: PackageVersionView| plainly_before(a, b);
    assert forall|a: PackageVersionView, b: PackageVersionView| #[trigger] coarse(
        a,
        b,
    ) implies version_before(a, b) && !version_before(b, a) by {
        lemma_plain_order(a, b, b);
    }
    assert forall|a: PackageVersionView, b: PackageVersionView, c: PackageVersionView|
        !(#[trigger] coarse(b, a)) && !(#[trigger] coarse(c, b)) implies !coarse(c, a) by {
        lemma_plain_order(a, b, c);
    }
    ordered::law_ranked_respects_coarser_orders::<PackageVersion>(offered(raw, matching(raw, pattern)), coarse);
    let list = normalized(raw, pattern)->Ok_0;
    assert(!coarse(list[j], list[i]));
}

/// Exactly the tags that match the pattern are listed, and each of them once.
pub proof fn law_versions_are_the_matching_tags(
    raw: Seq<RawVersionView>,
    pattern: Seq<char>,
    name: Seq<char>,
)
    requires
        normalized(raw, pattern) is Ok,
    ensures
        version_names(normalized(raw, pattern)->Ok_0).contains(name) <==> outside::regex_matches(
            pattern,
            name,
        ) && exists|i: int| 0 <= i < raw.len() && #[trigger] raw[i].version == name,
        version_names(normalized(raw, pattern)->Ok_0).no_duplicates(),
{
    let wanted = matching(raw, pattern);
    lemma_offered(raw, wanted, name);
    lemma_ranked_names(offered(raw, wanted), name);
    if exists|i: int| 0 <= i < raw.len() && wanted[i] && #[trigger] raw[i].version == name {
        let i = choose|i: int| 0 <= i < raw.len() && wanted[i] && #[trigger] raw[i].version == name;
        assert(outside::regex_matches(pattern, name));
    }
    if outside::regex_matches(pattern, name) && exists|i: int|
        0 <= i < raw.len() && #[trigger] raw[i].version == name {
        let i = choose|i: int| 0 <= i < raw.len() && #[trigger] raw[i].version == name;
        assert(wanted[i]);
    }
}

proof fn lemma_names_push(list: Seq<PackageVersionView>, v: PackageVersionView, name: Seq<char>)
    ensures
        version_names(list.push(v)) == version_names(list).push(v.version),
        version_names(list.push(v)).contains(name) <==> version_names(list).contains(name)
            || v.version == name,
{
    let names = version_names(list);
    let all = version_names(list.push(v));
    assert(all =~= names.push(v.version));
    assert(all[all.len() - 1] == v.version);
    if names.contains(name) {
        let i = choose|i: int| 0 <= i < names.len() && names[i] == name;
        assert(all[i] == name);
    }
    if all.contains(name) {
        let i = choose|i: int| 0 <= i < all.len() && all[i] == name;
        if i < names.len() {
            assert(names[i] == name);
        }
    }
}

proof fn lemma_offered(raw: Seq<RawVersionView>, wanted: Seq<bool>, name: Seq<char>)
    ensures
        version_names(offered(raw, wanted)).contains(name) <==> exists|i: int|
            0 <= i < raw.len() && wanted[i] && #[trigger] raw[i].version == name,
        version_names(offered(raw, wanted)).no_duplicates(),
    decreases raw.len(),
{
    if raw.len() > 0 {
        let front = raw.drop_last();
        let last = raw.last();
        lemma_offered(front, wanted, name);
        lemma_names_push(offered(front, wanted), package_of(last), name);
        lemma_offered(front, wanted, last.version);
        assert((exists|i: int| 0 <= i < raw.len() && wanted[i] && #[trigger] raw[i].version == name)
            <==> (exists|i: int|
            0 <= i < front.len() && wanted[i] && #[trigger] front[i].version == name) || (
        wanted[raw.len() - 1] && last.version == name)) by {
            if exists|i: int| 0 <= i < front.len() && wanted[i] && #[trigger] front[i].version == name {
                let i = choose|i: int|
                    0 <= i < front.len() && wanted[i] && #[trigger] front[i].version == name;
                assert(raw[i].version == name);
            }
            assert(raw[raw.len() - 1] == last);
            if exists|i: int| 0 <= i < raw.len() && wanted[i] && #[trigger] raw[i].version == name {
                let i = choose|i: int|
                    0 <= i < raw.len() && wanted[i] && #[trigger] raw[i].version == name;
                if i < front.len() {
                    assert(front[i].version == name);
                }
            }
        }
    }
}

proof fn lemma_ranked_names(list: Seq<PackageVersionView>, name: Seq<char>)
    requires
        version_names(list).no_duplicates(),
    ensures
        version_names(ordered::ranked::<PackageVersion>(list)).contains(name)
            <==> version_names(list).contains(name),
        version_names(ordered::ranked::<PackageVersion>(list)).no_duplicates(),
    decreases list.len(),
{
    if list.len() > 0 {
        let front = list.drop_last();
        let last = list.last();
        assert(list =~= front.push(last));
        lemma_names_push(front, last, name);
        lemma_names_push(front, last, last.version);
        let names = version_names(list);
        assert forall|i: int, j: int| 0 <= i < j < version_names(front).len() implies version_names(
            front,
        )[i] != version_names(front)[j] by {
            assert(names[i] != names[j]);
        }
        assert(!version_names(front).contains(last.version)) by {
            if version_names(front).contains(last.version) {
                let i = choose|i: int|
                    0 <= i < version_names(front).len() && version_names(front)[i] == last.version;
                assert(names[i] == names[names.len() - 1]);
            }
        }
        lemma_ranked_names(front, name);
        lemma_ranked_names(front, last.version);
        let sorted = ordered::ranked::<PackageVersion>(front);
        let k = ordered::lemma_ranked_insert_position::<PackageVersion>(sorted, last);
        let was = version_names(sorted);
        let now = version_names(sorted.insert(k, last));
        assert(now =~= was.insert(k, last.version));
        assert(now.contains(name) <==> was.contains(name) || last.version == name) by {
            assert(now[k] == last.version);
            if was.contains(name) {
                let i = choose|i: int| 0 <= i < was.len() && was[i] == name;
                assert(now[if i < k {
                    i
                } else {
                    i + 1
                }] == name);
            }
            if now.contains(name) {
                let i = choose|i: int| 0 <= i < now.len() && now[i] == name;
                if i < k {
                    assert(was[i] == name);
                } else if i > k {
                    assert(was[i - 1] == name);
                }
            }
        }
        assert forall|i: int, j: int| 0 <= i < now.len() && 0 <= j < now.len() && i
            != j implies now[i] != now[j] by {
            let a = if i < k {
                i
            } else {
                i - 1
            };
            let b = if j < k {
                j
            } else {
                j - 1
            };
            if i != k && j != k {
                assert(was[a] != was[b]);
            } else if i == k {
                assert(was.contains(was[b]));
            } else {
                assert(was.contains(was[a]));
            }
        }
    }
}

} // verus!
