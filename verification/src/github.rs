//! GitHub Packages: how the versions of a container package are read, page by page.
use crate::duplicate::{self, Duplicate};
use crate::error::{AppError, AppErrorView};
use crate::ordered::{self, Ranked};
use crate::outside;
use crate::registry::{self, Timestamp};
use crate::table::{self, Keyed};
use crate::text;
use vstd::prelude::*;

verus! {

/// A tag of a package.
#[derive(Debug)]
pub struct PackageVersion {
    pub version: String,
    pub package_version_id: i64,
    pub digest: Option<String>,
    pub created_at: Timestamp,
    pub updated_at: Timestamp,
}

pub struct PackageVersionView {
    pub version: Seq<char>,
    pub package_version_id: i64,
    pub digest: Option<Seq<char>>,
    pub created_at: Timestamp,
    pub updated_at: Timestamp,
}

impl DeepView for PackageVersion {
    type V = PackageVersionView;

    open spec fn deep_view(&self) -> PackageVersionView {
        PackageVersionView {
            version: self.version.deep_view(),
            package_version_id: self.package_version_id,
            digest: self.digest.deep_view(),
            created_at: self.created_at.deep_view(),
            updated_at: self.updated_at.deep_view(),
        }
    }
}

impl Duplicate for PackageVersion {
    fn duplicate(&self) -> (r: Self) {
        PackageVersion {
            version: self.version.duplicate(),
            package_version_id: self.package_version_id,
            digest: self.digest.duplicate(),
            created_at: self.created_at.duplicate(),
            updated_at: self.updated_at.duplicate(),
        }
    }
}

/// A version of a package as GitHub lists it: an image with all its tags.
#[derive(Debug)]
pub struct ApiVersion {
    pub id: i64,
    pub name: String,
    pub tags: Vec<String>,
    pub created_at: Timestamp,
    pub updated_at: Timestamp,
}

pub struct ApiVersionView {
    pub id: i64,
    pub name: Seq<char>,
    pub tags: Seq<Seq<char>>,
    pub created_at: Timestamp,
    pub updated_at: Timestamp,
}

impl DeepView for ApiVersion {
    type V = ApiVersionView;

    open spec fn deep_view(&self) -> ApiVersionView {
        ApiVersionView {
            id: self.id,
            name: self.name.deep_view(),
            tags: self.tags.deep_view(),
            created_at: self.created_at.deep_view(),
            updated_at: self.updated_at.deep_view(),
        }
    }
}

impl Duplicate for ApiVersion {
    fn duplicate(&self) -> (r: Self) {
        ApiVersion {
            id: self.id,
            name: self.name.duplicate(),
            tags: self.tags.duplicate(),
            created_at: self.created_at.duplicate(),
            updated_at: self.updated_at.duplicate(),
        }
    }
}

/// Versions as they were read at a point in time, in nanoseconds.
#[derive(Debug)]
pub struct CachedPackages {
    pub key: String,
    pub at: u128,
    pub versions: Vec<PackageVersion>,
}

pub struct CachedPackagesView {
    pub key: Seq<char>,
    pub at: u128,
    pub versions: Seq<PackageVersionView>,
}

impl DeepView for CachedPackages {
    type V = CachedPackagesView;

    open spec fn deep_view(&self) -> CachedPackagesView {
        CachedPackagesView {
            key: self.key.deep_view(),
            at: self.at,
            versions: self.versions.deep_view(),
        }
    }
}

impl Duplicate for CachedPackages {
    fn duplicate(&self) -> (r: Self) {
        CachedPackages {
            key: self.key.duplicate(),
            at: self.at,
            versions: self.versions.duplicate(),
        }
    }
}

/// Whether `a` is listed before `b`, where `x` and `y` are the numbers of their versions and
/// `order` says how these compare. Semantic versions come first, the highest of them before the
/// others; of the other tags the last updated comes first.
pub open spec fn outranks(
    a: PackageVersionView,
    b: PackageVersionView,
    x: Option<(u64, u64, u64)>,
    y: Option<(u64, u64, u64)>,
    order: i8,
) -> bool {
    match (x, y) {
        (Some(_), Some(_)) => registry::is_above(x, y, order),
        (Some(_), None) => true,
        (None, Some(_)) => false,
        (None, None) => registry::is_later(Some(a.updated_at), Some(b.updated_at)),
    }
}

pub fn ranks_above(
    a: &PackageVersion,
    b: &PackageVersion,
    x: Option<(u64, u64, u64)>,
    y: Option<(u64, u64, u64)>,
    order: i8,
) -> (r: bool)
    ensures
        r == outranks(a.deep_view(), b.deep_view(), x, y, order),
{
    match (x, y) {
        (Some(_), Some(_)) => registry::above(x, y, order),
        (Some(_), None) => true,
        (None, Some(_)) => false,
        (None, None) => registry::later(&Some(a.updated_at), &Some(b.updated_at)),
    }
}

/// Whether one version is listed before another.
pub open spec fn version_before(a: PackageVersionView, b: PackageVersionView) -> bool {
    outranks(
        a,
        b,
        outside::semver_numbers(a.version),
        outside::semver_numbers(b.version),
        outside::semver_order(a.version, b.version),
    )
}

proof fn lemma_version_ranks(a: PackageVersionView, b: PackageVersionView, c: PackageVersionView)
    requires
        outside::semver_numbers(a.version) is Some && outside::semver_numbers(b.version) is Some
            ==> registry::order_is_sound(a.version, b.version),
    ensures
        version_before(a, b) ==> !version_before(b, a),
        !version_before(a, b) && !version_before(b, c) ==> !version_before(a, c),
{
    if let (Some(x), Some(y), Some(z)) = (
        outside::semver_numbers(a.version),
        outside::semver_numbers(b.version),
        outside::semver_numbers(c.version),
    ) {
        assert(outside::semver_order(b.version, a.version) == -outside::semver_order(
            a.version,
            b.version,
        ));
        if x == y && y == z && outside::semver_order(a.version, b.version) <= 0
            && outside::semver_order(b.version, c.version) <= 0 {
            assert(outside::semver_order(a.version, c.version) <= 0);
        }
    }
}

impl Ranked for PackageVersion {
    open spec fn before(a: PackageVersionView, b: PackageVersionView) -> bool {
        version_before(a, b)
    }

    fn ranks_before(&self, other: &Self) -> (r: bool) {
        let (x, y, order) = registry::compare(self.version.as_str(), other.version.as_str());
        proof {
            let a = self.deep_view();
            let b = other.deep_view();
            lemma_version_ranks(a, b, b);
            assert forall|c: PackageVersionView|
                !Self::before(a, b) && !(#[trigger] Self::before(b, c)) implies !Self::before(a, c) by {
                lemma_version_ranks(a, b, c);
            }
        }
        ranks_above(self, other, x, y, order)
    }
}

pub open spec fn version_names(list: Seq<PackageVersionView>) -> Seq<Seq<char>> {
    list.map_values(|v: PackageVersionView| v.version)
}

/// A tag of an image; an image without a name has no digest.
pub open spec fn tagged(v: ApiVersionView, tag: Seq<char>) -> PackageVersionView {
    PackageVersionView {
        version: tag,
        package_version_id: v.id,
        digest: if v.name.len() > 0 {
            Some(v.name)
        } else {
            None
        },
        created_at: v.created_at,
        updated_at: v.updated_at,
    }
}

/// Which tags of an image match a pattern.
pub open spec fn matching_tags(tags: Seq<Seq<char>>, pattern: Seq<char>) -> Seq<bool> {
    tags.map_values(|tag: Seq<char>| outside::regex_matches(pattern, tag))
}

/// Which tags of each image match a pattern.
pub open spec fn matching(raw: Seq<ApiVersionView>, pattern: Seq<char>) -> Seq<Seq<bool>> {
    raw.map_values(|v: ApiVersionView| matching_tags(v.tags, pattern))
}

/// The list with those of the first `n` tags of an image that are wanted and new.
pub open spec fn with_tags(
    list: Seq<PackageVersionView>,
    v: ApiVersionView,
    n: int,
    wanted: Seq<bool>,
) -> Seq<PackageVersionView>
    decreases n,
{
    if n <= 0 || n > v.tags.len() {
        list
    } else {
        let before = with_tags(list, v, n - 1, wanted);
        let tag = v.tags[n - 1];
        if wanted[n - 1] && !version_names(before).contains(tag) {
            before.push(tagged(v, tag))
        } else {
            before
        }
    }
}

/// The tags of the images that are wanted, each of them once: as it stands there first.
pub open spec fn offered(raw: Seq<ApiVersionView>, wanted: Seq<Seq<bool>>) -> Seq<PackageVersionView>
    decreases raw.len(),
{
    if raw.len() == 0 {
        Seq::empty()
    } else {
        with_tags(
            offered(raw.drop_last(), wanted),
            raw.last(),
            raw.last().tags.len() as int,
            wanted[raw.len() - 1],
        )
    }
}

pub open spec fn normalized(raw: Seq<ApiVersionView>, pattern: Seq<char>) -> Result<
    Seq<PackageVersionView>,
    AppErrorView,
> {
    match outside::regex_error(pattern) {
        Some(error) => Err(AppErrorView::Internal(error)),
        None => Ok(ordered::ranked::<PackageVersion>(offered(raw, matching(raw, pattern)))),
    }
}

fn lists_version(list: &Vec<PackageVersion>, version: &str) -> (r: bool)
    ensures
        r == version_names(list.deep_view()).contains(version@),
{
    let ghost names = version_names(list.deep_view());
    let mut i: usize = 0;
    while i < list.len()
        invariant
            i <= list@.len(),
            names == version_names(list.deep_view()),
            forall|j: int| 0 <= j < i ==> #[trigger] names[j] != version@,
        decreases list@.len() - i,
    {
        proof {
            assert(names[i as int] == list@[i as int].version@);
        }
        if text::same(list[i].version.as_str(), version) {
            return true;
        }
        i = i + 1;
    }
    false
}

fn add_tags(list: &mut Vec<PackageVersion>, item: &ApiVersion, wanted: &Vec<bool>)
    requires
        item.tags@.len() == wanted@.len(),
    ensures
        final(list).deep_view() == with_tags(
            old(list).deep_view(),
            item.deep_view(),
            item.tags@.len() as int,
            wanted@,
        ),
{
    let ghost was = list.deep_view();
    let mut n: usize = 0;
    while n < item.tags.len()
        invariant
            n <= item.tags@.len(),
            item.tags@.len() == wanted@.len(),
            list.deep_view() == with_tags(was, item.deep_view(), n as int, wanted@),
        decreases item.tags@.len() - n,
    {
        let tag = item.tags[n].as_str();
        let ghost before = list.deep_view();
        proof {
            assert(item.deep_view().tags[n as int] == tag@);
        }
        if wanted[n] && !lists_version(list, tag) {
            let digest = if item.name.as_str().unicode_len() > 0 {
                Some(item.name.clone())
            } else {
                None
            };
            list.push(
                PackageVersion {
                    version: item.tags[n].clone(),
                    package_version_id: item.id,
                    digest,
                    created_at: item.created_at,
                    updated_at: item.updated_at,
                },
            );
            proof {
                assert(list.deep_view() =~= before.push(tagged(item.deep_view(), tag@)));
            }
        }
        n = n + 1;
    }
}

/// Whether there is a list for each image, with one entry for each of its tags.
pub open spec fn one_for_each_tag(raw: Seq<ApiVersionView>, wanted: Seq<Seq<bool>>) -> bool {
    &&& raw.len() == wanted.len()
    &&& forall|i: int| 0 <= i < raw.len() ==> #[trigger] raw[i].tags.len() == wanted[i].len()
}

/// Lists the tags of the images that are wanted, each of them once.
pub fn offer(raw: &Vec<ApiVersion>, wanted: &Vec<Vec<bool>>) -> (r: Vec<PackageVersion>)
    requires
        one_for_each_tag(raw.deep_view(), wanted.deep_view()),
    ensures
        r.deep_view() == offered(raw.deep_view(), wanted.deep_view()),
{
    let ghost all = raw.deep_view();
    let mut out: Vec<PackageVersion> = Vec::new();
    let mut i: usize = 0;
    proof {
        assert(out.deep_view() =~= offered(all.take(0), wanted.deep_view()));
    }
    while i < raw.len()
        invariant
            i <= raw@.len(),
            all == raw.deep_view(),
            one_for_each_tag(all, wanted.deep_view()),
            out.deep_view() == offered(all.take(i as int), wanted.deep_view()),
        decreases raw@.len() - i,
    {
        proof {
            assert(all.take(i + 1).drop_last() =~= all.take(i as int));
            assert(all.take(i + 1).last() == raw@[i as int].deep_view());
            assert(all[i as int].tags.len() == wanted.deep_view()[i as int].len());
            assert(wanted.deep_view()[i as int] =~= wanted@[i as int]@);
        }
        add_tags(&mut out, &raw[i], &wanted[i]);
        i = i + 1;
    }
    proof {
        assert(all.take(i as int) =~= all);
    }
    out
}

fn match_tags(tags: &Vec<String>, pattern: &str) -> (r: Vec<bool>)
    requires
        outside::regex_error(pattern@) is None,
    ensures
        r@ == matching_tags(tags.deep_view(), pattern@),
{
    let ghost all = matching_tags(tags.deep_view(), pattern@);
    let mut out: Vec<bool> = Vec::new();
    while out.len() < tags.len()
        invariant
            out@.len() <= tags@.len(),
            outside::regex_error(pattern@) is None,
            all == matching_tags(tags.deep_view(), pattern@),
            out@ =~= all.take(out@.len() as int),
        decreases tags@.len() - out@.len(),
    {
        let i: usize = out.len();
        proof {
            assert(all[i as int] == outside::regex_matches(pattern@, tags@[i as int]@));
        }
        out.push(outside::matches_pattern(pattern, tags[i].as_str()));
    }
    out
}

fn match_all(raw: &Vec<ApiVersion>, pattern: &str) -> (r: Vec<Vec<bool>>)
    requires
        outside::regex_error(pattern@) is None,
    ensures
        r.deep_view() == matching(raw.deep_view(), pattern@),
{
    let ghost all = matching(raw.deep_view(), pattern@);
    let mut out: Vec<Vec<bool>> = Vec::new();
    while out.len() < raw.len()
        invariant
            out@.len() <= raw@.len(),
            outside::regex_error(pattern@) is None,
            all == matching(raw.deep_view(), pattern@),
            out.deep_view() =~= all.take(out@.len() as int),
        decreases raw@.len() - out@.len(),
    {
        let i: usize = out.len();
        let ghost before = out.deep_view();
        let wanted = match_tags(&raw[i].tags, pattern);
        proof {
            assert(wanted.deep_view() =~= wanted@);
            assert(all[i as int] == matching_tags(raw@[i as int].tags.deep_view(), pattern@));
        }
        out.push(wanted);
        proof {
            assert(out.deep_view() =~= before.push(wanted.deep_view()));
        }
    }
    out
}

/// Turns the images that GitHub lists into versions that can be deployed. No version is listed
/// behind one that it comes before, so that the highest semantic version stands first.
pub fn normalize(raw: &Vec<ApiVersion>, pattern: &str) -> (r: Result<Vec<PackageVersion>, AppError>)
    ensures
        duplicate::outcome(r) == normalized(raw.deep_view(), pattern@),
        r is Ok ==> ordered::in_order::<PackageVersion>(r->Ok_0.deep_view()),
{
    if let Some(error) = outside::check_pattern(pattern) {
        return Err(AppError::Internal(error));
    }
    let wanted = match_all(raw, pattern);
    Ok(ordered::sort(&offer(raw, &wanted)))
}

/// How many versions GitHub is asked for at a time. A page with fewer of them is the last one.
pub const VERSIONS_PER_PAGE: usize = 100;

/// What GitHub answered to a request for one page. The body is read as a list of versions.
#[derive(Debug)]
pub enum PageReply {
    Unreachable { timeout: bool },
    Response { status: u16, status_text: String, body: Option<Vec<ApiVersion>> },
}

pub enum PageReplyView {
    Unreachable { timeout: bool },
    Response { status: u16, status_text: Seq<char>, body: Option<Seq<ApiVersionView>> },
}

impl DeepView for PageReply {
    type V = PageReplyView;

    open spec fn deep_view(&self) -> PageReplyView {
        match self {
            PageReply::Unreachable { timeout } => PageReplyView::Unreachable { timeout: *timeout },
            PageReply::Response { status, status_text, body } => PageReplyView::Response {
                status: *status,
                status_text: status_text@,
                body: body.deep_view(),
            },
        }
    }
}

/// A query for all versions of a package.
#[derive(Debug)]
pub struct PackageQuery {
    url: String,
    page: u64,
    raw: Vec<ApiVersion>,
    result: Option<Result<(), AppError>>,
}

pub struct PackageQueryView {
    pub url: Seq<char>,
    pub page: u64,
    pub raw: Seq<ApiVersionView>,
    /// How the query ended, once it has.
    pub result: Option<Result<(), AppErrorView>>,
}

impl DeepView for PackageQuery {
    type V = PackageQueryView;

    closed spec fn deep_view(&self) -> PackageQueryView {
        PackageQueryView {
            url: self.url@,
            page: self.page,
            raw: self.raw.deep_view(),
            result: match self.result {
                Some(result) => Some(duplicate::outcome(result)),
                None => None,
            },
        }
    }
}

/// What GitHub's refusal means.
pub open spec fn refusal(status: u16) -> Seq<char> {
    if status == 401 {
        "GitHub Token 无效"@
    } else if status == 403 {
        "GitHub 拒绝访问或已限流"@
    } else if status == 404 {
        "GitHub 包不存在或无权访问"@
    } else {
        "GitHub API 请求失败"@
    }
}

impl PackageQueryView {
    pub open spec fn failed(self, message: Seq<char>) -> PackageQueryView {
        PackageQueryView { result: Some(Err(AppErrorView::Package(message))), ..self }
    }

    /// The query after an answer: a full page is followed by another one.
    pub open spec fn next(self, reply: PageReplyView) -> PackageQueryView {
        if self.result is Some {
            self
        } else {
            match reply {
                PageReplyView::Unreachable { timeout } => self.failed(
                    if timeout {
                        "连接 GitHub 超时"@
                    } else {
                        "无法连接 GitHub"@
                    },
                ),
                PageReplyView::Response { status, status_text, body } => if !registry::is_success(
                    status,
                ) {
                    self.failed(refusal(status) + " ("@ + status_text + ")"@)
                } else {
                    match body {
                        None => self.failed("GitHub 返回了无效响应"@),
                        Some(batch) => if batch.len() < VERSIONS_PER_PAGE {
                            PackageQueryView { raw: self.raw + batch, result: Some(Ok(())), ..self }
                        } else {
                            PackageQueryView {
                                raw: self.raw + batch,
                                page: (self.page + 1) as u64,
                                ..self
                            }
                        },
                    }
                },
            }
        }
    }
}

impl PackageQuery {
    /// Each page before the current one was full.
    #[verifier::type_invariant]
    spec fn pages_were_full(self) -> bool {
        1 <= self.page && (self.page - 1) * VERSIONS_PER_PAGE <= self.raw@.len()
    }

    /// A query for the versions of a user's container package.
    pub fn new(api_base: &str, owner: &str, package: &str) -> (r: Self)
        ensures
            r.deep_view() == (PackageQueryView {
                url: text::trim_end_char(api_base@, '/') + "/users/"@ + owner@
                    + "/packages/container/"@ + package@ + "/versions"@,
                page: 1,
                raw: Seq::empty(),
                result: None,
            }),
    {
        let base = text::trimmed_end_char(api_base, '/');
        let mut url = text::joined3(base.as_str(), "/users/", owner);
        url.append("/packages/container/");
        url.append(package);
        url.append("/versions");
        let raw: Vec<ApiVersion> = Vec::new();
        proof {
            assert(raw.deep_view() =~= Seq::empty());
        }
        PackageQuery { url, page: 1, raw, result: None }
    }

    /// The address and the number of the page that is asked for next, in pages of
    /// `VERSIONS_PER_PAGE`; nothing once the query has ended.
    pub fn request(&self) -> (r: Option<(String, u64)>)
        ensures
            r.deep_view() == (if self.deep_view().result is Some {
                None
            } else {
                Some((self.deep_view().url, self.deep_view().page))
            }),
    {
        if self.result.is_some() {
            None
        } else {
            Some((self.url.clone(), self.page))
        }
    }

    fn fail(&mut self, message: String)
        ensures
            final(self).deep_view() == old(self).deep_view().failed(message@),
    {
        proof {
            use_type_invariant(&*self);
        }
        self.result = Some(Err(AppError::Package(message)));
    }

    /// Tells the query what was answered.
    pub fn handle(&mut self, reply: &PageReply)
        ensures
            final(self).deep_view() == old(self).deep_view().next(reply.deep_view()),
    {
        proof {
            use_type_invariant(&*self);
        }
        if self.result.is_some() {
            return;
        }
        match reply {
            PageReply::Unreachable { timeout } => {
                if *timeout {
                    self.fail("连接 GitHub 超时".to_owned());
                } else {
                    self.fail("无法连接 GitHub".to_owned());
                }
            },
            PageReply::Response { status, status_text, body } => {
                if !(200 <= *status && *status < 300) {
                    let refusal = if *status == 401 {
                        "GitHub Token 无效"
                    } else if *status == 403 {
                        "GitHub 拒绝访问或已限流"
                    } else if *status == 404 {
                        "GitHub 包不存在或无权访问"
                    } else {
                        "GitHub API 请求失败"
                    };
                    let mut message = text::joined3(refusal, " (", status_text.as_str());
                    message.append(")");
                    self.fail(message);
                    return;
                }
                match body {
                    None => self.fail("GitHub 返回了无效响应".to_owned()),
                    Some(batch) => {
                        let mut raw = self.raw.duplicate();
                        let mut more = batch.duplicate();
                        let ghost a = raw.deep_view();
                        let ghost b = more.deep_view();
                        raw.append(&mut more);
                        proof {
                            assert(raw.deep_view() =~= a + b);
                            assert(self.raw.deep_view().len() == self.raw@.len());
                            assert(raw.deep_view().len() == raw@.len());
                        }
                        let total: usize = raw.len();
                        self.raw = raw;
                        if batch.len() < VERSIONS_PER_PAGE {
                            self.result = Some(Ok(()));
                        } else {
                            proof {
                                assert(self.page * VERSIONS_PER_PAGE <= total);
                            }
                            self.page = self.page + 1;
                        }
                    },
                }
            },
        }
    }

    /// The versions that match a pattern, or why there are none; nothing while the query is
    /// under way.
    pub fn result(&self, pattern: &str) -> (r: Option<Result<Vec<PackageVersion>, AppError>>)
        ensures
            match self.deep_view().result {
                None => r is None,
                Some(Err(error)) => r is Some && duplicate::outcome(r->0) == Err::<
                    Seq<PackageVersionView>,
                    _,
                >(error),
                Some(Ok(_)) => r is Some && duplicate::outcome(r->0) == normalized(
                    self.deep_view().raw,
                    pattern@,
                ) && (r->0 is Ok ==> ordered::in_order::<PackageVersion>(
                    r->0->Ok_0.deep_view(),
                )),
            },
    {
        match &self.result {
            None => None,
            Some(Err(error)) => Some(Err(error.duplicate())),
            Some(Ok(_)) => Some(normalize(&self.raw, pattern)),
        }
    }
}

/// A query asks for another page exactly when the page that came was full.
pub proof fn law_full_pages_are_followed(
    q: PackageQueryView,
    status_text: Seq<char>,
    batch: Seq<ApiVersionView>,
)
    requires
        q.result is None,
        1 <= q.page < u64::MAX,
    ensures
        q.next(
            PageReplyView::Response { status: 200, status_text, body: Some(batch) },
        ).raw == q.raw + batch,
        q.next(
            PageReplyView::Response { status: 200, status_text, body: Some(batch) },
        ).result is None <==> batch.len() >= VERSIONS_PER_PAGE,
        batch.len() >= VERSIONS_PER_PAGE ==> q.next(
            PageReplyView::Response { status: 200, status_text, body: Some(batch) },
        ).page == q.page + 1,
{
}

impl Keyed for CachedPackages {
    open spec fn key(v: CachedPackagesView) -> Seq<Seq<char>> {
        seq![v.key]
    }

    fn key_texts(&self) -> (r: Vec<String>) {
        let r = text::list_of(&[self.key.as_str()]);
        proof {
            assert(r.deep_view() =~= Self::key(self.deep_view()));
        }
        r
    }
}

/// The versions that were read from GitHub, for as long as they are kept.
#[derive(Debug)]
pub struct GithubClient {
    ttl_seconds: u64,
    cache: Vec<CachedPackages>,
}

pub struct GithubClientView {
    pub ttl_seconds: u64,
    pub cache: Seq<CachedPackagesView>,
}

impl DeepView for GithubClient {
    type V = GithubClientView;

    closed spec fn deep_view(&self) -> GithubClientView {
        GithubClientView { ttl_seconds: self.ttl_seconds, cache: self.cache.deep_view() }
    }
}

impl GithubClientView {
    /// The versions that are kept for a service, where they are fresh and not to be read anew.
    pub open spec fn cached(self, key: Seq<char>, refresh: bool, now: u128) -> Option<
        Seq<PackageVersionView>,
    > {
        match table::row::<CachedPackages>(self.cache, seq![key]) {
            Some(found) => if !refresh && registry::elapsed(found.at, now) < registry::nanoseconds(
                self.ttl_seconds,
            ) {
                Some(found.versions)
            } else {
                None
            },
            None => None,
        }
    }
}

impl GithubClient {
    pub fn new(ttl_seconds: u64) -> (r: Self)
        ensures
            r.deep_view() == (GithubClientView { ttl_seconds, cache: Seq::empty() }),
    {
        let cache: Vec<CachedPackages> = Vec::new();
        proof {
            assert(cache.deep_view() =~= Seq::empty());
        }
        GithubClient { ttl_seconds, cache }
    }

    /// The versions that are kept for a service. Where there are none, they have to be read.
    pub fn versions(&self, service_id: &str, refresh: bool, now: u128) -> (r: Option<
        Vec<PackageVersion>,
    >)
        ensures
            r.deep_view() == self.deep_view().cached(service_id@, refresh, now),
    {
        let key = text::list_of(&[service_id]);
        proof {
            assert(key.deep_view() =~= seq![service_id@]);
        }
        match table::find_row(&self.cache, &key) {
            Some(found) => {
                if !refresh && !registry::is_stale(found.at, now, self.ttl_seconds) {
                    Some(found.versions.duplicate())
                } else {
                    None
                }
            },
            None => None,
        }
    }

    /// Keeps the versions that were read.
    pub fn store(&mut self, service_id: &str, versions: Vec<PackageVersion>, now: u128)
        ensures
            final(self).deep_view() == (GithubClientView {
                cache: table::with_row::<CachedPackages>(
                    old(self).deep_view().cache,
                    CachedPackagesView {
                        key: service_id@,
                        at: now,
                        versions: versions.deep_view(),
                    },
                ),
                ..old(self).deep_view()
            }),
    {
        table::put_row(
            &mut self.cache,
            CachedPackages { key: service_id.to_owned(), at: now, versions },
        );
    }
}

} // verus!
