//! Updates of the panel itself: which release is taken, and what is made of its files.
use crate::duplicate::{self, Duplicate};
use crate::error::{AppError, AppErrorView};
use crate::outside;
use crate::paths;
use crate::registry;
use crate::text;
use vstd::prelude::*;

verus! {

/// The largest file that a release may have, in bytes.
pub const MAX_ARCHIVE_BYTES: u64 = 104_857_600;

/// How long a release that was read is kept, in seconds.
pub const RELEASE_CACHE_SECONDS: u64 = 3_600;

/// How often the update helper is looked after, once a second, before it is given up.
pub const HELPER_POLLS: u32 = 90;

pub open spec fn download_prefix() -> Seq<char> {
    "https://github.com/ever-light/windplume-deploy/releases/download/"@
}

pub open spec fn page_prefix() -> Seq<char> {
    "https://github.com/ever-light/windplume-deploy/releases/tag/"@
}

/// Where the latest release is asked for.
pub fn release_api() -> (r: &'static str)
    ensures
        r@ == "https://api.github.com/repos/ever-light/windplume-deploy/releases/latest"@,
{
    "https://api.github.com/repos/ever-light/windplume-deploy/releases/latest"
}

/// A release that can be installed.
#[derive(Debug)]
pub struct ReleaseInfo {
    pub version: String,
    pub html_url: String,
    pub published_at: Option<String>,
    pub archive_url: String,
    pub checksum_url: String,
    pub signature_url: String,
}

pub struct ReleaseInfoView {
    pub version: Seq<char>,
    pub html_url: Seq<char>,
    pub published_at: Option<Seq<char>>,
    pub archive_url: Seq<char>,
    pub checksum_url: Seq<char>,
    pub signature_url: Seq<char>,
}

impl DeepView for ReleaseInfo {
    type V = ReleaseInfoView;

    open spec fn deep_view(&self) -> ReleaseInfoView {
        ReleaseInfoView {
            version: self.version.deep_view(),
            html_url: self.html_url.deep_view(),
            published_at: self.published_at.deep_view(),
            archive_url: self.archive_url.deep_view(),
            checksum_url: self.checksum_url.deep_view(),
            signature_url: self.signature_url.deep_view(),
        }
    }
}

impl Duplicate for ReleaseInfo {
    fn duplicate(&self) -> (r: Self) {
        ReleaseInfo {
            version: self.version.duplicate(),
            html_url: self.html_url.duplicate(),
            published_at: self.published_at.duplicate(),
            archive_url: self.archive_url.duplicate(),
            checksum_url: self.checksum_url.duplicate(),
            signature_url: self.signature_url.duplicate(),
        }
    }
}

/// A file of a release.
#[derive(Debug)]
pub struct GitHubAsset {
    pub name: String,
    pub browser_download_url: String,
}

pub struct GitHubAssetView {
    pub name: Seq<char>,
    pub browser_download_url: Seq<char>,
}

impl DeepView for GitHubAsset {
    type V = GitHubAssetView;

    open spec fn deep_view(&self) -> GitHubAssetView {
        GitHubAssetView {
            name: self.name.deep_view(),
            browser_download_url: self.browser_download_url.deep_view(),
        }
    }
}

impl Duplicate for GitHubAsset {
    fn duplicate(&self) -> (r: Self) {
        GitHubAsset {
            name: self.name.duplicate(),
            browser_download_url: self.browser_download_url.duplicate(),
        }
    }
}

/// A release as GitHub tells of it.
#[derive(Debug)]
pub struct GitHubRelease {
    pub tag_name: String,
    pub html_url: String,
    pub published_at: Option<String>,
    pub draft: bool,
    pub prerelease: bool,
    pub assets: Vec<GitHubAsset>,
}

pub struct GitHubReleaseView {
    pub tag_name: Seq<char>,
    pub html_url: Seq<char>,
    pub published_at: Option<Seq<char>>,
    pub draft: bool,
    pub prerelease: bool,
    pub assets: Seq<GitHubAssetView>,
}

impl DeepView for GitHubRelease {
    type V = GitHubReleaseView;

    open spec fn deep_view(&self) -> GitHubReleaseView {
        GitHubReleaseView {
            tag_name: self.tag_name.deep_view(),
            html_url: self.html_url.deep_view(),
            published_at: self.published_at.deep_view(),
            draft: self.draft,
            prerelease: self.prerelease,
            assets: self.assets.deep_view(),
        }
    }
}

impl Duplicate for GitHubRelease {
    fn duplicate(&self) -> (r: Self) {
        GitHubRelease {
            tag_name: self.tag_name.duplicate(),
            html_url: self.html_url.duplicate(),
            published_at: self.published_at.duplicate(),
            draft: self.draft,
            prerelease: self.prerelease,
            assets: self.assets.duplicate(),
        }
    }
}

/// How far an update has come.
#[derive(Debug)]
pub struct UpdateStatus {
    pub state: String,
    pub target_version: Option<String>,
    pub message: String,
    pub updated_at: String,
}

pub struct UpdateStatusView {
    pub state: Seq<char>,
    pub target_version: Option<Seq<char>>,
    pub message: Seq<char>,
    pub updated_at: Seq<char>,
}

impl DeepView for UpdateStatus {
    type V = UpdateStatusView;

    open spec fn deep_view(&self) -> UpdateStatusView {
        UpdateStatusView {
            state: self.state.deep_view(),
            target_version: self.target_version.deep_view(),
            message: self.message.deep_view(),
            updated_at: self.updated_at.deep_view(),
        }
    }
}

impl Duplicate for UpdateStatus {
    fn duplicate(&self) -> (r: Self) {
        UpdateStatus {
            state: self.state.duplicate(),
            target_version: self.target_version.duplicate(),
            message: self.message.duplicate(),
            updated_at: self.updated_at.duplicate(),
        }
    }
}

/// The name of the archive of a version.
pub open spec fn archive_name(version: Seq<char>) -> Seq<char> {
    "windplume-deploy-"@ + version + "-linux-x86_64.tar.gz"@
}

pub open spec fn checksum_name(version: Seq<char>) -> Seq<char> {
    archive_name(version) + ".sha256"@
}

pub open spec fn signature_name(version: Seq<char>) -> Seq<char> {
    "windplume-deploy-"@ + version + "-linux-x86_64.sig"@
}

/// Where a file of a version is downloaded.
pub open spec fn asset_url(version: Seq<char>, name: Seq<char>) -> Seq<char> {
    download_prefix() + "v"@ + version + "/"@ + name
}

/// The address of the first file with this name.
pub open spec fn find_asset(assets: Seq<GitHubAssetView>, name: Seq<char>) -> Option<Seq<char>>
    decreases assets.len(),
{
    if assets.len() == 0 {
        None
    } else if assets[0].name == name {
        Some(assets[0].browser_download_url)
    } else {
        find_asset(assets.drop_first(), name)
    }
}

pub open spec fn update_error<T>(message: Seq<char>) -> Result<T, AppErrorView> {
    Err(AppErrorView::Update(message))
}

/// The version that a tag names, behind the `v` that every tag of a release begins with.
pub open spec fn tag_version(tag: Seq<char>) -> Option<Seq<char>> {
    text::strip_prefix(tag, "v"@)
}

/// The addresses of a version's files, where they are all there and all where they should be.
pub open spec fn release_assets(r: GitHubReleaseView, version: Seq<char>) -> Result<
    (Seq<char>, Seq<char>, Seq<char>),
    AppErrorView,
> {
    match (
        find_asset(r.assets, archive_name(version)),
        find_asset(r.assets, checksum_name(version)),
        find_asset(r.assets, signature_name(version)),
    ) {
        (None, _, _) => update_error("Release 缺少资产 "@ + archive_name(version)),
        (Some(_), None, _) => update_error("Release 缺少资产 "@ + checksum_name(version)),
        (Some(_), Some(_), None) => update_error("Release 缺少资产 "@ + signature_name(version)),
        (Some(archive), Some(checksum), Some(signature)) => if archive == asset_url(
            version,
            archive_name(version),
        ) && checksum == asset_url(version, checksum_name(version)) && signature == asset_url(
            version,
            signature_name(version),
        ) {
            Ok((archive, checksum, signature))
        } else {
            update_error("Release 资产地址不受信任"@)
        },
    }
}

/// The release that GitHub tells of, where it is a stable one of this project. Whether its tag
/// holds a semantic version behind the `v`, and one of nothing but numbers, is given.
pub open spec fn release_with(r: GitHubReleaseView, semantic: bool, plain: bool) -> Result<
    ReleaseInfoView,
    AppErrorView,
> {
    if r.draft || r.prerelease {
        update_error("最新 Release 不是稳定版"@)
    } else {
        match tag_version(r.tag_name) {
            None => update_error("Release 版本号无效: "@ + r.tag_name),
            Some(version) => if !semantic {
                update_error("Release 版本号无效: "@ + r.tag_name)
            } else if !plain {
                update_error("Release 版本必须是稳定的 X.Y.Z"@)
            } else if r.html_url != page_prefix() + "v"@ + version {
                update_error("Release 页面地址不受信任"@)
            } else {
                match release_assets(r, version) {
                    Err(error) => Err(error),
                    Ok((archive_url, checksum_url, signature_url)) => Ok(
                        ReleaseInfoView {
                            version,
                            html_url: r.html_url,
                            published_at: r.published_at,
                            archive_url,
                            checksum_url,
                            signature_url,
                        },
                    ),
                }
            },
        }
    }
}

/// The release that GitHub tells of.
pub open spec fn release_of(r: GitHubReleaseView) -> Result<ReleaseInfoView, AppErrorView> {
    match tag_version(r.tag_name) {
        None => release_with(r, false, false),
        Some(version) => release_with(
            r,
            outside::semver_numbers(version) is Some,
            !version.contains('-') && !version.contains('+'),
        ),
    }
}

fn update_failure(message: &str) -> (r: AppError)
    ensures
        r.deep_view() == AppErrorView::Update(message@),
{
    AppError::Update(message.to_owned())
}

fn archive_file(version: &str) -> (r: String)
    ensures
        r@ == archive_name(version@),
{
    text::joined3("windplume-deploy-", version, "-linux-x86_64.tar.gz")
}

fn file_url(version: &str, name: &str) -> (r: String)
    ensures
        r@ == asset_url(version@, name@),
{
    let mut url = text::joined3(
        "https://github.com/ever-light/windplume-deploy/releases/download/",
        "v",
        version,
    );
    url.append("/");
    url.append(name);
    url
}

fn asset(assets: &Vec<GitHubAsset>, name: &str) -> (r: Result<String, AppError>)
    ensures
        match find_asset(assets.deep_view(), name@) {
            Some(url) => r is Ok && r->Ok_0@ == url,
            None => duplicate::outcome(r) == update_error::<Seq<char>>(
                "Release 缺少资产 "@ + name@,
            ),
        },
{
    let ghost all = assets.deep_view();
    let mut i: usize = 0;
    proof {
        assert(all.skip(0) =~= all);
    }
    while i < assets.len()
        invariant
            i <= assets@.len(),
            all == assets.deep_view(),
            find_asset(all.skip(i as int), name@) == find_asset(all, name@),
        decreases assets@.len() - i,
    {
        proof {
            assert(all.skip(i as int)[0] == assets@[i as int].deep_view());
            assert(all.skip(i as int).drop_first() =~= all.skip(i + 1));
        }
        if text::same(assets[i].name.as_str(), name) {
            return Ok(assets[i].browser_download_url.clone());
        }
        i = i + 1;
    }
    Err(AppError::Update(text::joined2("Release 缺少资产 ", name)))
}

fn find_assets(assets: &Vec<GitHubAsset>, version: &str) -> (r: Result<
    (String, String, String),
    AppError,
>)
    ensures
        forall|release: GitHubReleaseView|
            release.assets == assets.deep_view() ==> (#[trigger] release_assets(release, version@)
                == (match r {
                Ok(urls) => Ok((urls.0@, urls.1@, urls.2@)),
                Err(error) => Err(error.deep_view()),
            })),
{
    let archive_name = archive_file(version);
    let checksum_name = text::joined2(archive_name.as_str(), ".sha256");
    let signature_name = text::joined3("windplume-deploy-", version, "-linux-x86_64.sig");
    let archive = match asset(assets, archive_name.as_str()) {
        Ok(url) => url,
        Err(error) => {
            return Err(error);
        },
    };
    let checksum = match asset(assets, checksum_name.as_str()) {
        Ok(url) => url,
        Err(error) => {
            return Err(error);
        },
    };
    let signature = match asset(assets, signature_name.as_str()) {
        Ok(url) => url,
        Err(error) => {
            return Err(error);
        },
    };
    if archive != file_url(version, archive_name.as_str()) || checksum != file_url(
        version,
        checksum_name.as_str(),
    ) || signature != file_url(version, signature_name.as_str()) {
        return Err(update_failure("Release 资产地址不受信任"));
    }
    Ok((archive, checksum, signature))
}

fn version_of(tag: &str) -> (r: Option<String>)
    ensures
        r.deep_view() == tag_version(tag@),
{
    text::without_prefix(tag, "v")
}

fn invalid_tag(tag: &str) -> (r: AppError)
    ensures
        r.deep_view() == AppErrorView::Update("Release 版本号无效: "@ + tag@),
{
    AppError::Update(text::joined2("Release 版本号无效: ", tag))
}

/// Accepts a release, where it is known whether its tag holds a semantic version of nothing but
/// numbers.
pub fn accept_release(release: &GitHubRelease, semantic: bool, plain: bool) -> (r: Result<
    ReleaseInfo,
    AppError,
>)
    ensures
        duplicate::outcome(r) == release_with(release.deep_view(), semantic, plain),
{
    if release.draft || release.prerelease {
        return Err(update_failure("最新 Release 不是稳定版"));
    }
    let version = match version_of(release.tag_name.as_str()) {
        Some(version) => version,
        None => {
            return Err(invalid_tag(release.tag_name.as_str()));
        },
    };
    if !semantic {
        return Err(invalid_tag(release.tag_name.as_str()));
    }
    if !plain {
        return Err(update_failure("Release 版本必须是稳定的 X.Y.Z"));
    }
    let page = text::joined3(
        "https://github.com/ever-light/windplume-deploy/releases/tag/",
        "v",
        version.as_str(),
    );
    if release.html_url != page {
        return Err(update_failure("Release 页面地址不受信任"));
    }
    match find_assets(&release.assets, version.as_str()) {
        Err(error) => Err(error),
        Ok((archive_url, checksum_url, signature_url)) => Ok(
            ReleaseInfo {
                version,
                html_url: release.html_url.clone(),
                published_at: release.published_at.duplicate(),
                archive_url,
                checksum_url,
                signature_url,
            },
        ),
    }
}

/// Whether a semantic version is nothing but numbers: neither a pre-release nor build metadata
/// follows them.
fn is_plain(version: &str) -> (r: bool)
    requires
        outside::semver_numbers(version@) is Some,
    ensures
        r == (!version@.contains('-') && !version@.contains('+')),
{
    let (no_prerelease, no_build) = outside::version_suffixes(version);
    proof {
        let signs = version@;
        text::lemma_find(signs, '+');
        if !signs.contains('+') {
            assert(signs.take(text::find(signs, '+')) =~= signs);
        }
    }
    no_prerelease && no_build
}

/// Reads a release.
pub fn parse_release(release: &GitHubRelease) -> (r: Result<ReleaseInfo, AppError>)
    ensures
        duplicate::outcome(r) == release_of(release.deep_view()),
{
    let (semantic, plain) = match version_of(release.tag_name.as_str()) {
        Some(version) => {
            let semantic = outside::parse_version(version.as_str()).is_some();
            (semantic, semantic && is_plain(version.as_str()))
        },
        None => (false, false),
    };
    accept_release(release, semantic, plain)
}

/// An accepted release is a stable one. Its tag is its version behind a `v`, and every file of it
/// is downloaded from this project's own releases.
pub proof fn law_releases_come_from_the_project(r: GitHubReleaseView)
    requires
        release_of(r) is Ok,
    ensures
        !r.draft,
        !r.prerelease,
        r.tag_name == "v"@ + release_of(r)->Ok_0.version,
        text::starts_with(release_of(r)->Ok_0.archive_url, download_prefix()),
        text::starts_with(release_of(r)->Ok_0.checksum_url, download_prefix()),
        text::starts_with(release_of(r)->Ok_0.signature_url, download_prefix()),
        text::starts_with(release_of(r)->Ok_0.html_url, page_prefix()),
{
    let version = tag_version(r.tag_name)->0;
    assert(r.tag_name =~= "v"@ + version);
    lemma_asset_url(version, archive_name(version));
    lemma_asset_url(version, checksum_name(version));
    lemma_asset_url(version, signature_name(version));
    assert((page_prefix() + "v"@ + version).take(page_prefix().len() as int) =~= page_prefix());
}

proof fn lemma_asset_url(version: Seq<char>, name: Seq<char>)
    ensures
        text::starts_with(asset_url(version, name), download_prefix()),
{
    assert(asset_url(version, name).take(download_prefix().len() as int) =~= download_prefix());
}

/// What a checksum file says of an archive.
pub open spec fn checksum_of(words: Seq<Seq<char>>, expected_name: Seq<char>) -> Result<
    Seq<char>,
    AppErrorView,
> {
    if words.len() == 0 || words[0].len() != 64 || !text::all_hex(words[0]) {
        update_error("SHA-256 文件无效"@)
    } else if words.len() < 2 {
        update_error("SHA-256 文件缺少文件名"@)
    } else if text::trim_start_char(words[1], '*') != expected_name {
        update_error("SHA-256 文件名与 Release 不匹配"@)
    } else {
        Ok(text::lowercase(words[0]))
    }
}

pub open spec fn checksum_in(bytes: Seq<u8>, expected_name: Seq<char>) -> Result<
    Seq<char>,
    AppErrorView,
> {
    if vstd::utf8::valid_utf8(bytes) {
        checksum_of(text::words(vstd::utf8::decode_utf8(bytes)), expected_name)
    } else {
        update_error("SHA-256 文件不是 UTF-8"@)
    }
}

/// Reads the checksum of an archive from its checksum file.
pub fn parse_checksum(bytes: &[u8], expected_name: &str) -> (r: Result<String, AppError>)
    ensures
        duplicate::outcome(r) == checksum_in(bytes@, expected_name@),
{
    let mut copy: Vec<u8> = Vec::new();
    let mut i: usize = 0;
    while i < bytes.len()
        invariant
            i <= bytes@.len(),
            copy@ == bytes@.take(i as int),
        decreases bytes@.len() - i,
    {
        copy.push(bytes[i]);
        i = i + 1;
    }
    proof {
        assert(copy@ =~= bytes@);
    }
    let content = match outside::text_from_utf8(copy) {
        Some(content) => content,
        None => {
            return Err(update_failure("SHA-256 文件不是 UTF-8"));
        },
    };
    let words = text::word_list(content.as_str());
    proof {
        assert(text::words(content@).len() == words@.len());
        if words@.len() > 0 {
            assert(text::words(content@)[0] == words@[0]@);
        }
        if words@.len() > 1 {
            assert(text::words(content@)[1] == words@[1]@);
        }
    }
    if words.len() == 0 || words[0].as_str().unicode_len() != 64 || !text::hex_only(
        words[0].as_str(),
    ) {
        return Err(update_failure("SHA-256 文件无效"));
    }
    if words.len() < 2 {
        return Err(update_failure("SHA-256 文件缺少文件名"));
    }
    let name = text::trimmed_start_char(words[1].as_str(), '*');
    if !text::same(name.as_str(), expected_name) {
        return Err(update_failure("SHA-256 文件名与 Release 不匹配"));
    }
    Ok(text::lowered(words[0].as_str()))
}

/// A checksum that was read is 64 hexadecimal digits.
pub proof fn law_checksums_are_hexadecimal(bytes: Seq<u8>, expected_name: Seq<char>)
    requires
        checksum_in(bytes, expected_name) is Ok,
    ensures
        checksum_in(bytes, expected_name)->Ok_0.len() == 64,
        text::all_hex(checksum_in(bytes, expected_name)->Ok_0),
{
    let word = text::words(vstd::utf8::decode_utf8(bytes))[0];
    let lower = text::lowercase(word);
    assert forall|i: int| 0 <= i < lower.len() implies text::is_hex_digit(#[trigger] lower[i]) by {
        assert(text::is_hex_digit(word[i]));
        assert(lower[i] == text::ascii_lower(word[i]));
    }
}

pub open spec fn hex_digit(n: u8) -> char {
    if n >= 10 {
        ('a' as u32 + n - 10) as char
    } else {
        ('0' as u32 + n) as char
    }
}

/// Bytes as lower-case hexadecimal digits.
pub open spec fn hex(bytes: Seq<u8>) -> Seq<char>
    decreases bytes.len(),
{
    if bytes.len() == 0 {
        Seq::empty()
    } else {
        hex(bytes.drop_last()) + seq![hex_digit(bytes.last() / 16), hex_digit(bytes.last() % 16)]
    }
}

fn digit(n: u8) -> (r: char)
    requires
        n < 16,
    ensures
        r == hex_digit(n),
{
    let code: u8 = if n >= 10 {
        87 + n
    } else {
        48 + n
    };
    code as char
}

fn hex_text(bytes: &Vec<u8>) -> (r: String)
    ensures
        r@ == hex(bytes@),
{
    let mut out = String::new();
    let mut i: usize = 0;
    proof {
        assert(bytes@.take(0) =~= Seq::empty());
    }
    while i < bytes.len()
        invariant
            i <= bytes@.len(),
            out@ == hex(bytes@.take(i as int)),
        decreases bytes@.len() - i,
    {
        let byte: u8 = bytes[i];
        let ghost before = out@;
        out.push(digit(byte / 16));
        out.push(digit(byte % 16));
        proof {
            assert(bytes@.take(i + 1).drop_last() =~= bytes@.take(i as int));
            assert(bytes@.take(i + 1).last() == byte);
            assert(out@ =~= before + seq![hex_digit(byte / 16), hex_digit(byte % 16)]);
        }
        i = i + 1;
    }
    proof {
        assert(bytes@.take(i as int) =~= bytes@);
    }
    out
}

/// Where the program stands in the archive of a version.
pub open spec fn binary_path(version: Seq<char>) -> Seq<char> {
    "windplume-deploy-"@ + version + "-linux-x86_64/windplume-deploy"@
}

/// The entry that holds the program, among the paths of an archive from `from` on. Nothing is
/// taken from an archive with a path before it that leads out of the archive.
pub open spec fn member_from(
    paths: Seq<Result<Seq<u8>, Seq<char>>>,
    expected: Seq<u8>,
    from: int,
) -> Result<int, AppErrorView>
    decreases paths.len() - from,
{
    if from < 0 || from >= paths.len() {
        update_error("Release 压缩包缺少 windplume-deploy 二进制"@)
    } else {
        match paths[from] {
            Err(error) => update_error("Release 压缩包无效: "@ + error),
            Ok(path) => if paths::leads_out(path) {
                update_error("Release 包含不安全路径"@)
            } else if paths::is_same(path, expected) {
                Ok(from)
            } else {
                member_from(paths, expected, from + 1)
            },
        }
    }
}

/// The program that was read from an archive, where its size is acceptable.
pub open spec fn binary_of(content: Result<Seq<u8>, Seq<char>>) -> Result<Seq<u8>, AppErrorView> {
    match content {
        Err(error) => update_error("无法解压候选二进制: "@ + error),
        Ok(bytes) => if bytes.len() == 0 || bytes.len() > MAX_ARCHIVE_BYTES {
            update_error("候选二进制大小无效"@)
        } else {
            Ok(bytes)
        },
    }
}

/// The program in an archive.
pub open spec fn binary_in(archive: Seq<u8>, version: Seq<char>) -> Result<Seq<u8>, AppErrorView> {
    match member_from(
        outside::archive_paths(archive),
        vstd::utf8::encode_utf8(binary_path(version)),
        0,
    ) {
        Err(error) => Err(error),
        Ok(index) => binary_of(
            outside::archive_content(archive, index, (MAX_ARCHIVE_BYTES + 1) as u64),
        ),
    }
}

pub open spec fn path_results(paths: Seq<Result<Vec<u8>, String>>) -> Seq<
    Result<Seq<u8>, Seq<char>>,
> {
    paths.map_values(|p: Result<Vec<u8>, String>| duplicate::outcome(p))
}

/// Finds the entry that holds the program, given the paths of all entries.
pub fn find_binary(paths: &Vec<Result<Vec<u8>, String>>, version: &str) -> (r: Result<
    usize,
    AppError,
>)
    ensures
        match r {
            Ok(index) => member_from(
                path_results(paths@),
                vstd::utf8::encode_utf8(binary_path(version@)),
                0,
            ) == Ok::<int, AppErrorView>(index as int) && index < paths@.len(),
            Err(error) => member_from(
                path_results(paths@),
                vstd::utf8::encode_utf8(binary_path(version@)),
                0,
            ) == Err::<int, _>(error.deep_view()),
        },
{
    let expected = paths::bytes_of(
        text::joined3(
            "windplume-deploy-",
            version,
            "-linux-x86_64/windplume-deploy",
        ).as_str(),
    );
    let ghost all = path_results(paths@);
    let mut i: usize = 0;
    while i < paths.len()
        invariant
            i <= paths@.len(),
            all == path_results(paths@),
            expected@ == vstd::utf8::encode_utf8(binary_path(version@)),
            member_from(all, expected@, i as int) == member_from(all, expected@, 0),
        decreases paths@.len() - i,
    {
        proof {
            assert(all[i as int] == duplicate::outcome(paths@[i as int]));
        }
        match &paths[i] {
            Err(error) => {
                return Err(AppError::Update(text::joined2("Release 压缩包无效: ", error.as_str())));
            },
            Ok(path) => {
                proof {
                    assert(path.deep_view() =~= path@);
                }
                if paths::escapes(path) {
                    return Err(update_failure("Release 包含不安全路径"));
                }
                if paths::same_path(path, &expected) {
                    return Ok(i);
                }
            },
        }
        i = i + 1;
    }
    Err(update_failure("Release 压缩包缺少 windplume-deploy 二进制"))
}

/// Checks the program that was read from an archive.
pub fn check_binary(content: Result<Vec<u8>, String>) -> (r: Result<Vec<u8>, AppError>)
    ensures
        duplicate::outcome(r) == binary_of(duplicate::outcome(content)),
{
    match content {
        Err(error) => Err(AppError::Update(text::joined2("无法解压候选二进制: ", error.as_str()))),
        Ok(bytes) => {
            proof {
                assert(bytes.deep_view().len() == bytes@.len());
            }
            if bytes.len() == 0 || bytes.len() as u64 > MAX_ARCHIVE_BYTES {
                Err(update_failure("候选二进制大小无效"))
            } else {
                Ok(bytes)
            }
        },
    }
}

/// Takes the program out of an archive.
pub fn extract_binary(archive: &Vec<u8>, version: &str) -> (r: Result<Vec<u8>, AppError>)
    ensures
        duplicate::outcome(r) == binary_in(archive@, version@),
{
    let paths = outside::list_archive(archive);
    proof {
        assert(path_results(paths@) == outside::archive_paths(archive@));
    }
    match find_binary(&paths, version) {
        Err(error) => Err(error),
        Ok(index) => check_binary(outside::read_archive(archive, index, MAX_ARCHIVE_BYTES + 1)),
    }
}

/// A program that is taken out of an archive is not empty and not too large.
pub proof fn law_extracted_programs_have_an_acceptable_size(archive: Seq<u8>, version: Seq<char>)
    requires
        binary_in(archive, version) is Ok,
    ensures
        0 < binary_in(archive, version)->Ok_0.len() <= MAX_ARCHIVE_BYTES,
{
}

/// The entry that is taken lies inside the archive, where the program should be, and no entry
/// before it leads out of the archive.
pub proof fn law_only_the_expected_entry_is_taken(
    paths: Seq<Result<Seq<u8>, Seq<char>>>,
    expected: Seq<u8>,
    from: int,
)
    requires
        0 <= from,
        member_from(paths, expected, from) is Ok,
    ensures
        from <= member_from(paths, expected, from)->Ok_0 < paths.len(),
        paths[member_from(paths, expected, from)->Ok_0] is Ok,
        paths::is_same(paths[member_from(paths, expected, from)->Ok_0]->Ok_0, expected),
        forall|i: int|
            from <= i <= member_from(paths, expected, from)->Ok_0 ==> (#[trigger] paths[i]) is Ok
                && !paths::leads_out(paths[i]->Ok_0),
    decreases paths.len() - from,
{
    if let Ok(path) = paths[from] {
        if !paths::is_same(path, expected) {
            law_only_the_expected_entry_is_taken(paths, expected, from + 1);
        }
    }
}

/// Whether an archive with this digest is the one that its checksum file is of.
pub open spec fn archive_verdict(version: Seq<char>, digest: Seq<u8>, checksum: Seq<u8>) -> Result<
    (),
    AppErrorView,
> {
    match checksum_in(checksum, archive_name(version)) {
        Err(error) => Err(error),
        Ok(expected) => if hex(digest) != expected {
            update_error("Release SHA-256 校验失败"@)
        } else {
            Ok(())
        },
    }
}

/// Checks the digest of an archive against its checksum file.
pub fn verify_archive(version: &str, digest: &Vec<u8>, checksum: &[u8]) -> (r: Result<(), AppError>)
    ensures
        duplicate::outcome(r) == archive_verdict(version@, digest@, checksum@),
{
    let name = archive_file(version);
    match parse_checksum(checksum, name.as_str()) {
        Err(error) => Err(error),
        Ok(expected) => {
            if hex_text(digest) != expected {
                Err(update_failure("Release SHA-256 校验失败"))
            } else {
                Ok(())
            }
        },
    }
}

/// Checks a downloaded archive against its checksum file.
pub fn check_archive(version: &str, archive: &Vec<u8>, checksum: &[u8]) -> (r: Result<(), AppError>)
    ensures
        duplicate::outcome(r) == archive_verdict(
            version@,
            outside::sha256_digest(archive@),
            checksum@,
        ),
{
    verify_archive(version, &outside::sha256(archive), checksum)
}

/// An archive that passes has the digest that its checksum file says, under its own name.
pub proof fn law_archives_match_their_checksum(
    version: Seq<char>,
    archive: Seq<u8>,
    checksum: Seq<u8>,
)
    requires
        archive_verdict(version, outside::sha256_digest(archive), checksum) is Ok,
    ensures
        checksum_in(checksum, archive_name(version)) == Ok::<Seq<char>, AppErrorView>(
            hex(outside::sha256_digest(archive)),
        ),
{
}

/// Checks that a file is downloaded from this project's own releases.
pub fn check_download_url(url: &str) -> (r: Result<(), AppError>)
    ensures
        duplicate::outcome(r) == (if text::starts_with(url@, download_prefix()) {
            Ok(())
        } else {
            update_error("Release 资产地址不受信任"@)
        }),
{
    if text::begins_with(url, "https://github.com/ever-light/windplume-deploy/releases/download/") {
        Ok(())
    } else {
        Err(update_failure("Release 资产地址不受信任"))
    }
}

pub open spec fn download_error(
    status: u16,
    status_text: Seq<char>,
    content_length: Option<u64>,
) -> Result<(), AppErrorView> {
    if !registry::is_success(status) {
        update_error("Release 下载失败 ("@ + status_text + ")"@)
    } else if content_length is Some && content_length->0 > MAX_ARCHIVE_BYTES {
        update_error("Release 资产超过 100 MiB 限制"@)
    } else {
        Ok(())
    }
}

/// Checks the response to a download before its body is read.
pub fn check_download(status: u16, status_text: &str, content_length: Option<u64>) -> (r: Result<
    (),
    AppError,
>)
    ensures
        duplicate::outcome(r) == download_error(status, status_text@, content_length),
{
    if !(200 <= status && status < 300) {
        return Err(AppError::Update(text::joined3("Release 下载失败 (", status_text, ")")));
    }
    if let Some(length) = content_length {
        if length > MAX_ARCHIVE_BYTES {
            return Err(update_failure("Release 资产超过 100 MiB 限制"));
        }
    }
    Ok(())
}

/// Checks a body that was downloaded.
pub fn check_body(length: usize) -> (r: Result<(), AppError>)
    ensures
        duplicate::outcome(r) == (if length > MAX_ARCHIVE_BYTES {
            update_error("Release 资产超过 100 MiB 限制"@)
        } else {
            Ok(())
        }),
{
    if length as u64 > MAX_ARCHIVE_BYTES {
        Err(update_failure("Release 资产超过 100 MiB 限制"))
    } else {
        Ok(())
    }
}

/// What GitHub answered to the question for the latest release.
#[derive(Debug)]
pub enum ReleaseReply {
    Unreachable(String),
    Response { status: u16, status_text: String, body: Result<GitHubRelease, String> },
}

pub enum ReleaseReplyView {
    Unreachable(Seq<char>),
    Response { status: u16, status_text: Seq<char>, body: Result<GitHubReleaseView, Seq<char>> },
}

impl DeepView for ReleaseReply {
    type V = ReleaseReplyView;

    open spec fn deep_view(&self) -> ReleaseReplyView {
        match self {
            ReleaseReply::Unreachable(error) => ReleaseReplyView::Unreachable(error@),
            ReleaseReply::Response { status, status_text, body } => ReleaseReplyView::Response {
                status: *status,
                status_text: status_text@,
                body: duplicate::outcome(*body),
            },
        }
    }
}

pub open spec fn release_in(reply: ReleaseReplyView) -> Result<ReleaseInfoView, AppErrorView> {
    match reply {
        ReleaseReplyView::Unreachable(error) => update_error("GitHub Release 查询失败: "@ + error),
        ReleaseReplyView::Response { status, status_text, body } => if !registry::is_success(status) {
            update_error("GitHub Release 查询失败 ("@ + status_text + ")"@)
        } else {
            match body {
                Err(error) => update_error("GitHub Release 响应无效: "@ + error),
                Ok(release) => release_of(release),
            }
        },
    }
}

/// Reads the answer to the question for the latest release.
pub fn read_release(reply: &ReleaseReply) -> (r: Result<ReleaseInfo, AppError>)
    ensures
        duplicate::outcome(r) == release_in(reply.deep_view()),
{
    match reply {
        ReleaseReply::Unreachable(error) => Err(
            AppError::Update(text::joined2("GitHub Release 查询失败: ", error.as_str())),
        ),
        ReleaseReply::Response { status, status_text, body } => {
            if !(200 <= *status && *status < 300) {
                return Err(
                    AppError::Update(
                        text::joined3("GitHub Release 查询失败 (", status_text.as_str(), ")"),
                    ),
                );
            }
            match body {
                Err(error) => Err(
                    AppError::Update(text::joined2("GitHub Release 响应无效: ", error.as_str())),
                ),
                Ok(release) => parse_release(release),
            }
        },
    }
}

/// A step of handing a program over to the update helper.
#[derive(Debug)]
pub enum StageStep {
    Remove(String),
    WriteCandidate(String),
    WriteSignature(String),
    WriteRequest { path: String, version: String },
}

pub enum StageStepView {
    Remove(Seq<char>),
    WriteCandidate(Seq<char>),
    WriteSignature(Seq<char>),
    WriteRequest { path: Seq<char>, version: Seq<char> },
}

impl DeepView for StageStep {
    type V = StageStepView;

    open spec fn deep_view(&self) -> StageStepView {
        match self {
            StageStep::Remove(path) => StageStepView::Remove(path@),
            StageStep::WriteCandidate(path) => StageStepView::WriteCandidate(path@),
            StageStep::WriteSignature(path) => StageStepView::WriteSignature(path@),
            StageStep::WriteRequest { path, version } => StageStepView::WriteRequest {
                path: path@,
                version: version@,
            },
        }
    }
}

/// The steps of handing a program over. What is left of an earlier update goes first, and the
/// request that sets the helper to work comes last.
pub open spec fn stage_steps(update_dir: Seq<char>, version: Seq<char>) -> Seq<StageStepView> {
    seq![
        StageStepView::Remove(paths::below(update_dir, "request"@)),
        StageStepView::Remove(paths::below(update_dir, "candidate.sha256"@)),
        StageStepView::WriteCandidate(paths::below(update_dir, "candidate"@)),
        StageStepView::WriteSignature(paths::below(update_dir, "candidate.sig"@)),
        StageStepView::WriteRequest { path: paths::below(update_dir, "request"@), version },
    ]
}

pub fn stage_update(update_dir: &str, version: &str) -> (r: Vec<StageStep>)
    ensures
        r.deep_view() == stage_steps(update_dir@, version@),
{
    let r = vec![
        StageStep::Remove(paths::join(update_dir, "request")),
        StageStep::Remove(paths::join(update_dir, "candidate.sha256")),
        StageStep::WriteCandidate(paths::join(update_dir, "candidate")),
        StageStep::WriteSignature(paths::join(update_dir, "candidate.sig")),
        StageStep::WriteRequest {
            path: paths::join(update_dir, "request"),
            version: version.to_owned(),
        },
    ];
    proof {
        assert(r.deep_view() =~= stage_steps(update_dir@, version@));
    }
    r
}

/// Whether the update helper speaks the protocol of this panel, given what it printed.
pub fn helper_protocol_matches(success: bool, stdout: &str) -> (r: bool)
    ensures
        r == (success && text::trim(stdout@) == "3"@),
{
    success && text::same(text::trimmed(stdout).as_str(), "3")
}

/// Where the panel keeps what it needs to run: in one place where the update helper is installed,
/// else where its data is.
pub fn runtime_root(helper_installed: bool, fallback: &str) -> (r: String)
    ensures
        r@ == (if helper_installed {
            "/var/lib/windplume-deploy"@
        } else {
            fallback@
        }),
{
    if helper_installed {
        "/var/lib/windplume-deploy".to_owned()
    } else {
        fallback.to_owned()
    }
}

pub open spec fn status_of(
    state: Seq<char>,
    target_version: Option<Seq<char>>,
    message: Seq<char>,
    updated_at: Seq<char>,
) -> UpdateStatusView {
    UpdateStatusView { state, target_version, message, updated_at }
}

/// Whether an update has come to its end.
pub open spec fn has_ended(state: Seq<char>) -> bool {
    state == "failed"@ || state == "rolled_back"@ || state == "succeeded"@
}

/// The update of the panel: whether one is under way, and what is known of the latest release.
#[derive(Debug)]
pub struct UpdateManager {
    data_dir: String,
    supported: bool,
    active: bool,
    cache: Option<(u128, ReleaseInfo)>,
    status: UpdateStatus,
}

pub struct UpdateManagerView {
    pub data_dir: Seq<char>,
    pub supported: bool,
    pub active: bool,
    pub cache: Option<(u128, ReleaseInfoView)>,
    pub status: UpdateStatusView,
}

impl DeepView for UpdateManager {
    type V = UpdateManagerView;

    closed spec fn deep_view(&self) -> UpdateManagerView {
        UpdateManagerView {
            data_dir: self.data_dir@,
            supported: self.supported,
            active: self.active,
            cache: match self.cache {
                Some(kept) => Some((kept.0, kept.1.deep_view())),
                None => None,
            },
            status: self.status.deep_view(),
        }
    }
}

impl UpdateManagerView {
    pub open spec fn update_dir(self) -> Seq<char> {
        paths::below(self.data_dir, "update"@)
    }

    /// Whether an update is under way. A request that waits for the helper counts, also after a
    /// restart.
    pub open spec fn is_active(self, request_pending: bool) -> bool {
        self.active || request_pending
    }

    pub open spec fn begun(self, request_pending: bool) -> UpdateManagerView {
        if self.is_active(request_pending) {
            self
        } else {
            UpdateManagerView { active: true, ..self }
        }
    }

    pub open spec fn cancelled(self) -> UpdateManagerView {
        UpdateManagerView { active: false, ..self }
    }

    /// The release that is kept, where it is fresh and not to be read anew.
    pub open spec fn cached(self, refresh: bool, now: u128) -> Option<ReleaseInfoView> {
        match self.cache {
            Some((at, release)) => if !refresh && registry::elapsed(at, now)
                < registry::nanoseconds(RELEASE_CACHE_SECONDS) {
                Some(release)
            } else {
                None
            },
            None => None,
        }
    }

    pub open spec fn with_status(self, status: UpdateStatusView) -> UpdateManagerView {
        UpdateManagerView { status, ..self }
    }

    /// The panel after an update to the target came to nothing.
    pub open spec fn failed(
        self,
        target: Seq<char>,
        message: Seq<char>,
        now: Seq<char>,
    ) -> UpdateManagerView {
        self.with_status(status_of("failed"@, Some(target), message, now)).cancelled()
    }
}

impl UpdateManager {
    pub fn new(data_dir: String, supported: bool, now: &str) -> (r: Self)
        ensures
            r.deep_view() == (UpdateManagerView {
                data_dir: data_dir@,
                supported,
                active: false,
                cache: None,
                status: status_of("idle"@, None, "尚未执行更新"@, now@),
            }),
    {
        UpdateManager {
            data_dir,
            supported,
            active: false,
            cache: None,
            status: UpdateStatus {
                state: "idle".to_owned(),
                target_version: None,
                message: "尚未执行更新".to_owned(),
                updated_at: now.to_owned(),
            },
        }
    }

    pub fn self_update_supported(&self) -> (r: bool)
        ensures
            r == self.deep_view().supported,
    {
        self.supported
    }

    pub fn is_active(&self, request_pending: bool) -> (r: bool)
        ensures
            r == self.deep_view().is_active(request_pending),
    {
        self.active || request_pending
    }

    /// Begins an update, unless one is under way.
    pub fn begin(&mut self, request_pending: bool) -> (r: bool)
        ensures
            r == !old(self).deep_view().is_active(request_pending),
            final(self).deep_view() == old(self).deep_view().begun(request_pending),
    {
        if request_pending || self.active {
            return false;
        }
        self.active = true;
        true
    }

    pub fn cancel(&mut self)
        ensures
            final(self).deep_view() == old(self).deep_view().cancelled(),
    {
        self.active = false;
    }

    /// The release that is kept. Where there is none, it has to be read.
    pub fn latest(&self, refresh: bool, now: u128) -> (r: Option<ReleaseInfo>)
        ensures
            r.deep_view() == self.deep_view().cached(refresh, now),
    {
        match &self.cache {
            Some((at, release)) => {
                if !refresh && !registry::is_stale(*at, now, RELEASE_CACHE_SECONDS) {
                    Some(release.duplicate())
                } else {
                    None
                }
            },
            None => None,
        }
    }

    /// Keeps the release that was read.
    pub fn store(&mut self, release: &ReleaseInfo, now: u128)
        ensures
            final(self).deep_view() == (UpdateManagerView {
                cache: Some((now, release.deep_view())),
                ..old(self).deep_view()
            }),
    {
        self.cache = Some((now, release.duplicate()));
    }

    /// How far the update has come: what the helper has written, else what is known here.
    pub fn status(&self, written: Option<UpdateStatus>) -> (r: UpdateStatus)
        ensures
            r.deep_view() == (match written {
                Some(status) => status.deep_view(),
                None => self.deep_view().status,
            }),
    {
        match written {
            Some(status) => status,
            None => self.status.duplicate(),
        }
    }

    pub fn set_status(&mut self, state: &str, target: &str, message: &str, now: &str)
        ensures
            final(self).deep_view() == old(self).deep_view().with_status(
                status_of(state@, Some(target@), message@, now@),
            ),
    {
        self.status =
        UpdateStatus {
            state: state.to_owned(),
            target_version: Some(target.to_owned()),
            message: message.to_owned(),
            updated_at: now.to_owned(),
        };
    }

    /// Ends an update that came to nothing.
    pub fn fail(&mut self, target: &str, message: &str, now: &str)
        ensures
            final(self).deep_view() == old(self).deep_view().failed(target@, message@, now@),
    {
        self.set_status("failed", target, message, now);
        self.cancel();
    }

    /// Looks at what the helper has come to. An update that has come to its end is over here too.
    pub fn poll(&mut self, status: &UpdateStatus) -> (r: bool)
        ensures
            r == has_ended(status.deep_view().state),
            final(self).deep_view() == (if has_ended(status.deep_view().state) {
                old(self).deep_view().with_status(status.deep_view()).cancelled()
            } else {
                old(self).deep_view()
            }),
    {
        let state = status.state.as_str();
        if text::same(state, "failed") || text::same(state, "rolled_back") || text::same(
            state,
            "succeeded",
        ) {
            self.status = status.duplicate();
            self.cancel();
            true
        } else {
            false
        }
    }

    pub fn update_dir(&self) -> (r: String)
        ensures
            r@ == self.deep_view().update_dir(),
    {
        paths::join(self.data_dir.as_str(), "update")
    }

    /// Where the helper writes how far it has come.
    pub fn status_file(&self) -> (r: String)
        ensures
            r@ == (if paths::is_same(
                vstd::utf8::encode_utf8(self.deep_view().data_dir),
                vstd::utf8::encode_utf8("/var/lib/windplume-deploy"@),
            ) {
                "/var/lib/windplume-deploy/update-status/status.json"@
            } else {
                paths::below(self.deep_view().update_dir(), "status.json"@)
            }),
    {
        let here = paths::bytes_of(self.data_dir.as_str());
        let installed = paths::bytes_of("/var/lib/windplume-deploy");
        if paths::same_path(&here, &installed) {
            "/var/lib/windplume-deploy/update-status/status.json".to_owned()
        } else {
            paths::join(self.update_dir().as_str(), "status.json")
        }
    }
}

/// What becomes of a wish to update: refused while an update is under way, and while an
/// operation of a project is; otherwise the update begins.
pub open spec fn claimed(m: UpdateManagerView, request_pending: bool, idle: Seq<bool>) -> (
    Result<(), AppErrorView>,
    UpdateManagerView,
) {
    if m.is_active(request_pending) {
        (Err(AppErrorView::Updating), m)
    } else if idle.contains(false) {
        (Err(AppErrorView::Busy), m)
    } else {
        (Ok(()), m.begun(request_pending))
    }
}

impl UpdateManager {
    /// Begins an update, unless one is under way or a project is not idle.
    pub fn claim(&mut self, request_pending: bool, idle: &Vec<bool>) -> (r: Result<(), AppError>)
        ensures
            (duplicate::outcome(r), final(self).deep_view()) == claimed(
                old(self).deep_view(),
                request_pending,
                idle@,
            ),
    {
        if !self.begin(request_pending) {
            return Err(AppError::Updating);
        }
        let mut i: usize = 0;
        while i < idle.len()
            invariant
                i <= idle@.len(),
                !old(self).deep_view().is_active(request_pending),
                self.deep_view() == old(self).deep_view().begun(request_pending),
                forall|j: int| 0 <= j < i ==> #[trigger] idle@[j],
            decreases idle@.len() - i,
        {
            if !idle[i] {
                proof {
                    assert(idle@[i as int] == false);
                    assert(idle@.contains(false));
                }
                self.cancel();
                return Err(AppError::Busy);
            }
            i = i + 1;
        }
        Ok(())
    }
}

/// Once an update has begun, no other one begins until it is over.
pub proof fn law_one_update_at_a_time(
    m: UpdateManagerView,
    first: bool,
    idle: Seq<bool>,
    second: bool,
    others: Seq<bool>,
)
    requires
        claimed(m, first, idle).0 is Ok,
    ensures
        claimed(claimed(m, first, idle).1, second, others).0 == Err::<(), _>(
            AppErrorView::Updating,
        ),
{
}

/// A wish that is refused leaves the panel as it was.
pub proof fn law_refused_updates_change_nothing(
    m: UpdateManagerView,
    request_pending: bool,
    idle: Seq<bool>,
)
    requires
        claimed(m, request_pending, idle).0 is Err,
    ensures
        claimed(m, request_pending, idle).1 == m,
{
}

/// A request that waits for the helper keeps the panel in maintenance, whatever this process
/// knows of an update.
pub proof fn law_pending_request_is_a_lock(m: UpdateManagerView)
    ensures
        m.is_active(true),
        m.begun(true) == m,
{
}

} // verus!
