//! Which releases the panel accepts as an update of itself, and how such an update goes.
use crate::error::AppErrorView;
use crate::outside;
use crate::paths;
use crate::text;
use crate::text_laws;
use crate::update::{
    self, GitHubAssetView, GitHubReleaseView, ReleaseInfoView, ReleaseReplyView, StageStepView,
    UpdateManagerView, UpdateStatusView,
};
use crate::update_run::{UpdateActionView, UpdateEventView, UpdateRunView, UpdateStep};
use vstd::prelude::*;

verus! {

/// The name of a release's archive.
pub open spec fn archive(version: Seq<char>) -> Seq<char> {
    "windplume-deploy-"@ + version + "-linux-x86_64.tar.gz"@
}

/// The name of its checksum file.
pub open spec fn checksum(version: Seq<char>) -> Seq<char> {
    "windplume-deploy-"@ + version + "-linux-x86_64.tar.gz.sha256"@
}

/// The name of its signature.
pub open spec fn signature(version: Seq<char>) -> Seq<char> {
    "windplume-deploy-"@ + version + "-linux-x86_64.sig"@
}

/// Where a file of a release is downloaded from.
pub open spec fn download(version: Seq<char>, name: Seq<char>) -> Seq<char> {
    "https://github.com/ever-light/windplume-deploy/releases/download/v"@ + version + "/"@ + name
}

/// The page of a release.
pub open spec fn page(version: Seq<char>) -> Seq<char> {
    "https://github.com/ever-light/windplume-deploy/releases/tag/v"@ + version
}

/// The first asset of a name, where there is one.
pub open spec fn has_asset(assets: Seq<GitHubAssetView>, name: Seq<char>, url: Seq<char>) -> bool {
    exists|i: int|
        0 <= i < assets.len() && (#[trigger] assets[i]).name == name && assets[i].browser_download_url
            == url && forall|j: int| 0 <= j < i ==> (#[trigger] assets[j]).name != name
}

pub open spec fn lacks_asset(assets: Seq<GitHubAssetView>, name: Seq<char>) -> bool {
    forall|i: int| 0 <= i < assets.len() ==> (#[trigger] assets[i]).name != name
}

proof fn lemma_find_asset(assets: Seq<GitHubAssetView>, name: Seq<char>)
    ensures
        match update::find_asset(assets, name) {
            Some(url) => has_asset(assets, name, url),
            None => lacks_asset(assets, name),
        },
        forall|url: Seq<char>| #[trigger]
            has_asset(assets, name, url) ==> update::find_asset(assets, name) == Some(url),
        lacks_asset(assets, name) ==> update::find_asset(assets, name) is None,
    decreases assets.len(),
{
    if assets.len() > 0 {
        let rest = assets.drop_first();
        lemma_find_asset(rest, name);
        if assets[0].name == name {
            assert(has_asset(assets, name, assets[0].browser_download_url));
        } else {
            match update::find_asset(rest, name) {
                Some(url) => {
                    let i = choose|i: int|
                        0 <= i < rest.len() && (#[trigger] rest[i]).name == name
                            && rest[i].browser_download_url == url && forall|j: int|
                            0 <= j < i ==> (#[trigger] rest[j]).name != name;
                    assert(assets[i + 1] == rest[i]);
                    assert forall|j: int| 0 <= j < i + 1 implies (#[trigger] assets[j]).name
                        != name by {
                        if j > 0 {
                            assert(rest[j - 1] == assets[j]);
                        }
                    }
                    assert(has_asset(assets, name, url));
                },
                None => {
                    assert forall|i: int| 0 <= i < assets.len() implies (#[trigger] assets[i]).name
                        != name by {
                        if i > 0 {
                            assert(rest[i - 1] == assets[i]);
                        }
                    }
                },
            }
        }
        assert forall|url: Seq<char>| #[trigger]
            has_asset(assets, name, url) implies update::find_asset(assets, name) == Some(url) by {
            let i = choose|i: int|
                0 <= i < assets.len() && (#[trigger] assets[i]).name == name
                    && assets[i].browser_download_url == url && forall|j: int|
                    0 <= j < i ==> (#[trigger] assets[j]).name != name;
            if i > 0 {
                assert(assets[0].name != name);
                assert(rest[i - 1] == assets[i]);
                assert forall|j: int| 0 <= j < i - 1 implies (#[trigger] rest[j]).name != name by {
                    assert(assets[j + 1] == rest[j]);
                }
                assert(has_asset(rest, name, url));
            }
        }
        if lacks_asset(assets, name) {
            assert(assets[0].name != name);
            assert forall|i: int| 0 <= i < rest.len() implies (#[trigger] rest[i]).name != name by {
                assert(assets[i + 1] == rest[i]);
            }
        }
    }
}

proof fn lemma_names(version: Seq<char>)
    ensures
        update::archive_name(version) == archive(version),
        update::checksum_name(version) == checksum(version),
        update::signature_name(version) == signature(version),
        forall|name: Seq<char>| #[trigger]
            update::asset_url(version, name) == download(version, name),
        update::page_prefix() + "v"@ + version == page(version),
{
    reveal_strlit("-linux-x86_64.tar.gz.sha256");
    reveal_strlit("-linux-x86_64.tar.gz");
    reveal_strlit(".sha256");
    assert("-linux-x86_64.tar.gz.sha256"@ =~= "-linux-x86_64.tar.gz"@ + ".sha256"@);
    assert(update::checksum_name(version) =~= checksum(version));
    reveal_strlit("v");
    reveal_strlit("https://github.com/ever-light/windplume-deploy/releases/download/v");
    reveal_strlit("https://github.com/ever-light/windplume-deploy/releases/download/");
    reveal_strlit("https://github.com/ever-light/windplume-deploy/releases/tag/v");
    reveal_strlit("https://github.com/ever-light/windplume-deploy/releases/tag/");
    assert("https://github.com/ever-light/windplume-deploy/releases/download/v"@
        =~= "https://github.com/ever-light/windplume-deploy/releases/download/"@ + "v"@);
    assert("https://github.com/ever-light/windplume-deploy/releases/tag/v"@
        =~= "https://github.com/ever-light/windplume-deploy/releases/tag/"@ + "v"@);
}

/// A stable release whose tag is a plain semantic version behind a `v`, whose page is this
/// project's, and whose archive, checksum and signature are downloaded from it under their names,
/// is accepted with exactly these.
pub proof fn law_stable_releases_are_accepted(r: GitHubReleaseView, version: Seq<char>)
    requires
        !r.draft,
        !r.prerelease,
        r.tag_name == "v"@ + version,
        outside::semver_numbers(version) is Some,
        text_laws::lacks(version, '-'),
        text_laws::lacks(version, '+'),
        r.html_url == page(version),
        has_asset(r.assets, archive(version), download(version, archive(version))),
        has_asset(r.assets, checksum(version), download(version, checksum(version))),
        has_asset(r.assets, signature(version), download(version, signature(version))),
    ensures
        update::release_of(r) == Ok::<_, AppErrorView>(
            ReleaseInfoView {
                version,
                html_url: page(version),
                published_at: r.published_at,
                archive_url: download(version, archive(version)),
                checksum_url: download(version, checksum(version)),
                signature_url: download(version, signature(version)),
            },
        ),
{
    text_laws::law_prefix_is_taken_off("v"@, version, r.tag_name);
    lemma_names(version);
    lemma_find_asset(r.assets, archive(version));
    lemma_find_asset(r.assets, checksum(version));
    lemma_find_asset(r.assets, signature(version));
}

/// A release that is not all of this is refused, and the answer says what is wrong with it: that it
/// is not stable, its version, its page, a file that is missing, or where a file comes from.
pub proof fn law_other_releases_are_refused(r: GitHubReleaseView, version: Seq<char>)
    requires
        r.tag_name == "v"@ + version || !text::starts_with(r.tag_name, "v"@),
    ensures
        ({
            let refused = |message: Seq<char>|
                update::release_of(r) == Err::<ReleaseInfoView, _>(AppErrorView::Update(message));
            let missing = |name: Seq<char>| refused("Release 缺少资产 "@ + name);
            if r.draft || r.prerelease {
                refused("最新 Release 不是稳定版"@)
            } else if !text::starts_with(r.tag_name, "v"@) || outside::semver_numbers(
                version,
            ) is None {
                refused("Release 版本号无效: "@ + r.tag_name)
            } else if version.contains('-') || version.contains('+') {
                refused("Release 版本必须是稳定的 X.Y.Z"@)
            } else if r.html_url != page(version) {
                refused("Release 页面地址不受信任"@)
            } else if lacks_asset(r.assets, archive(version)) {
                missing(archive(version))
            } else if lacks_asset(r.assets, checksum(version)) {
                missing(checksum(version))
            } else if lacks_asset(r.assets, signature(version)) {
                missing(signature(version))
            } else if !has_asset(r.assets, archive(version), download(version, archive(version)))
                || !has_asset(r.assets, checksum(version), download(version, checksum(version)))
                || !has_asset(
                r.assets,
                signature(version),
                download(version, signature(version)),
            ) {
                refused("Release 资产地址不受信任"@)
            } else {
                update::release_of(r) is Ok
            }
        }),
{
    text_laws::law_prefix_is_taken_off("v"@, version, r.tag_name);
    lemma_names(version);
    lemma_find_asset(r.assets, archive(version));
    lemma_find_asset(r.assets, checksum(version));
    lemma_find_asset(r.assets, signature(version));
}

/// What an answer to the question for the latest release comes to.
pub proof fn law_release_answers(
    status: u16,
    status_text: Seq<char>,
    release: GitHubReleaseView,
    error: Seq<char>,
)
    ensures
        ({
            let failed = |message: Seq<char>|
                Err::<ReleaseInfoView, _>(AppErrorView::Update(message));
            let answer = |body: Result<GitHubReleaseView, Seq<char>>|
                update::release_in(ReleaseReplyView::Response { status, status_text, body });
            &&& update::release_in(ReleaseReplyView::Unreachable(error)) == failed(
                "GitHub Release 查询失败: "@ + error,
            )
            &&& status < 200 || status >= 300 ==> answer(Ok(release)) == failed(
                "GitHub Release 查询失败 ("@ + status_text + ")"@,
            ) && answer(Err(error)) == failed("GitHub Release 查询失败 ("@ + status_text + ")"@)
            &&& 200 <= status < 300 ==> answer(Ok(release)) == update::release_of(release)
                && answer(Err(error)) == failed("GitHub Release 响应无效: "@ + error)
        }),
{
}

/// A file is downloaded exactly where the answer is a success and does not announce more than
/// 100 MiB.
pub proof fn law_downloads_are_limited(
    status: u16,
    status_text: Seq<char>,
    length: Option<u64>,
)
    ensures
        update::download_error(status, status_text, length) == (if status < 200 || status >= 300 {
            Err::<(), _>(AppErrorView::Update("Release 下载失败 ("@ + status_text + ")"@))
        } else if length is Some && length->0 > 100 * 1024 * 1024 {
            Err(AppErrorView::Update("Release 资产超过 100 MiB 限制"@))
        } else {
            Ok(())
        }),
{
}

/// A checksum file is a digest and a file name, with white space between them and asterisks before
/// the name at most. What follows does not count. The digest is taken in lower case.
pub proof fn law_checksum_files_are_read(
    bytes: Seq<u8>,
    digits: Seq<char>,
    space: char,
    gap: Seq<char>,
    stars: nat,
    name: Seq<char>,
    end: char,
    tail: Seq<char>,
    expected: Seq<char>,
)
    requires
        vstd::utf8::valid_utf8(bytes),
        ({
            let start = digits + seq![space] + gap + Seq::new(stars, |i: int| '*') + name;
            vstd::utf8::decode_utf8(bytes) == start || vstd::utf8::decode_utf8(bytes) == start
                + seq![end] + tail
        }),
        digits.len() > 0,
        forall|i: int| 0 <= i < digits.len() ==> !text::is_space(#[trigger] digits[i]),
        text::is_space(space),
        text_laws::is_blank(gap),
        name.len() > 0,
        name[0] != '*',
        forall|i: int| 0 <= i < name.len() ==> !text::is_space(#[trigger] name[i]),
        text::is_space(end),
    ensures
        update::checksum_in(bytes, expected) == (if digits.len() != 64 || exists|i: int|
            0 <= i < digits.len() && !text::is_hex_digit(#[trigger] digits[i]) {
            Err::<Seq<char>, _>(AppErrorView::Update("SHA-256 文件无效"@))
        } else if name != expected {
            Err(AppErrorView::Update("SHA-256 文件名与 Release 不匹配"@))
        } else {
            Ok(text::lowercase(digits))
        }),
{
    let all = vstd::utf8::decode_utf8(bytes);
    let asterisks = Seq::new(stars, |i: int| '*');
    let file = asterisks + name;
    let rest = gap + file;
    assert forall|i: int| 0 <= i < file.len() implies !text::is_space(#[trigger] file[i]) by {
        if i < asterisks.len() {
            assert(file[i] == '*');
        } else {
            assert(file[i] == name[i - asterisks.len()]);
        }
    }
    let empty = Seq::<char>::empty();
    text_laws::law_words_follow_one_another(gap, file, end, tail);
    text_laws::law_characters_at_the_beginning_are_taken_off(name, '*', stars);
    let more = rest + seq![end] + tail;
    text_laws::law_words_follow_one_another(empty, digits, space, rest);
    text_laws::law_words_follow_one_another(empty, digits, space, more);
    let start = digits + seq![space] + gap + asterisks + name;
    assert(start =~= empty + digits + seq![space] + rest);
    assert(start + seq![end] + tail =~= empty + digits + seq![space] + more);
    let words = text::words(all);
    assert(words[0] == digits && words[1] == file && words.len() >= 2);
    assert(text::all_hex(digits) == !(exists|i: int|
        0 <= i < digits.len() && !text::is_hex_digit(#[trigger] digits[i])));
}

/// A checksum file that is not UTF-8, holds nothing, or no file name, is refused.
pub proof fn law_incomplete_checksum_files_are_refused(
    bytes: Seq<u8>,
    digits: Seq<char>,
    gap: Seq<char>,
    expected: Seq<char>,
)
    requires
        digits.len() > 0,
        forall|i: int| 0 <= i < digits.len() ==> !text::is_space(#[trigger] digits[i]),
        text_laws::is_blank(gap),
    ensures
        !vstd::utf8::valid_utf8(bytes) ==> update::checksum_in(bytes, expected) == Err::<
            Seq<char>,
            _,
        >(AppErrorView::Update("SHA-256 文件不是 UTF-8"@)),
        vstd::utf8::valid_utf8(bytes) && vstd::utf8::decode_utf8(bytes) == gap
            ==> update::checksum_in(bytes, expected) == Err::<Seq<char>, _>(
            AppErrorView::Update("SHA-256 文件无效"@),
        ),
        vstd::utf8::valid_utf8(bytes) && vstd::utf8::decode_utf8(bytes) == gap + digits
            && digits.len() == 64 && text::all_hex(digits) ==> update::checksum_in(bytes, expected)
            == Err::<Seq<char>, _>(AppErrorView::Update("SHA-256 文件缺少文件名"@)),
{
    text_laws::law_words_follow_one_another(gap, digits, ' ', seq![]);
}

/// A digest is written with two digits for each byte, the higher half first, in lower case.
pub proof fn law_digests_are_written_in_hexadecimal(bytes: Seq<u8>, i: int)
    requires
        0 <= i < bytes.len(),
    ensures
        update::hex(bytes).len() == 2 * bytes.len(),
        ({
            let high = bytes[i] / 16;
            let low = bytes[i] % 16;
            &&& high < 10 ==> update::hex(bytes)[2 * i] as u32 == '0' as u32 + high
            &&& high >= 10 ==> update::hex(bytes)[2 * i] as u32 == 'a' as u32 + high - 10
            &&& low < 10 ==> update::hex(bytes)[2 * i + 1] as u32 == '0' as u32 + low
            &&& low >= 10 ==> update::hex(bytes)[2 * i + 1] as u32 == 'a' as u32 + low - 10
        }),
    decreases bytes.len(),
{
    let front = bytes.drop_last();
    if i < bytes.len() - 1 {
        law_digests_are_written_in_hexadecimal(front, i);
    } else {
        lemma_hex_len(front);
        let n = update::hex(front).len();
        assert(update::hex(bytes)[n as int] == update::hex_digit(bytes.last() / 16));
        assert(update::hex(bytes)[n as int + 1] == update::hex_digit(bytes.last() % 16));
    }
}

proof fn lemma_hex_len(bytes: Seq<u8>)
    ensures
        update::hex(bytes).len() == 2 * bytes.len(),
    decreases bytes.len(),
{
    if bytes.len() > 0 {
        lemma_hex_len(bytes.drop_last());
    }
}

/// An archive passes exactly where its checksum file names it and says its digest.
pub proof fn law_archives_pass_with_their_checksum(
    version: Seq<char>,
    digest: Seq<u8>,
    file: Seq<u8>,
)
    ensures
        match update::checksum_in(file, archive(version)) {
            Ok(expected) => update::archive_verdict(version, digest, file) == (if expected
                == update::hex(digest) {
                Ok::<(), AppErrorView>(())
            } else {
                Err(AppErrorView::Update("Release SHA-256 校验失败"@))
            }),
            Err(error) => update::archive_verdict(version, digest, file) == Err::<(), _>(error),
        },
{
    lemma_names(version);
}

/// The entry that is taken from an archive is the first one at the expected place, where every
/// entry before it can be read and stays inside the archive.
pub proof fn law_the_program_is_found(
    paths: Seq<Result<Seq<u8>, Seq<char>>>,
    expected: Seq<u8>,
    from: int,
    i: int,
)
    requires
        0 <= from <= i <= paths.len(),
        forall|j: int|
            from <= j < i ==> (#[trigger] paths[j]) is Ok && !paths::leads_out(paths[j]->Ok_0)
                && !paths::is_same(paths[j]->Ok_0, expected),
    ensures
        ({
            let found = update::member_from(paths, expected, from);
            let failed = |message: Seq<char>| found == Err::<int, _>(AppErrorView::Update(message));
            if i == paths.len() {
                failed("Release 压缩包缺少 windplume-deploy 二进制"@)
            } else {
                match paths[i] {
                    Err(error) => failed("Release 压缩包无效: "@ + error),
                    Ok(path) => {
                        &&& paths::leads_out(path) ==> failed("Release 包含不安全路径"@)
                        &&& !paths::leads_out(path) && paths::is_same(path, expected) ==> found
                            == Ok::<_, AppErrorView>(i)
                    },
                }
            }
        }),
    decreases i - from,
{
    if from < i {
        assert(paths[from] is Ok);
        law_the_program_is_found(paths, expected, from + 1, i);
    }
}

/// The program is what the archive holds at its place, unless that is empty or over 100 MiB.
pub proof fn law_the_program_is_taken_as_it_is(bytes: Seq<u8>, error: Seq<char>)
    ensures
        update::binary_of(Ok(bytes)) == (if 0 < bytes.len() <= 100 * 1024 * 1024 {
            Ok::<_, AppErrorView>(bytes)
        } else {
            Err(AppErrorView::Update("候选二进制大小无效"@))
        }),
        update::binary_of(Err(error)) == Err::<Seq<u8>, _>(
            AppErrorView::Update("无法解压候选二进制: "@ + error),
        ),
{
}

/// The program of a release is looked for in the archive under its directory, and read from the
/// entry that is found there.
pub proof fn law_the_program_is_read_from_its_entry(
    bytes: Seq<u8>,
    version: Seq<char>,
)
    ensures
        ({
            let place = vstd::utf8::encode_utf8(
                "windplume-deploy-"@ + version + "-linux-x86_64/windplume-deploy"@,
            );
            match update::member_from(outside::archive_paths(bytes), place, 0) {
                Err(error) => update::binary_in(bytes, version) == Err::<Seq<u8>, _>(error),
                Ok(index) => update::binary_in(bytes, version) == update::binary_of(
                    outside::archive_content(bytes, index, 104_857_601),
                ),
            }
        }),
{
}

/// An update is handed over in this order: what an earlier one left is removed, then the program
/// and its signature are written, and last the request that the helper waits for.
pub proof fn law_updates_are_handed_over_in_order(dir: Seq<char>, version: Seq<char>)
    requires
        dir.len() > 0,
        dir.last() != '/',
    ensures
        update::stage_steps(dir, version) == seq![
            StageStepView::Remove(dir + "/"@ + "request"@),
            StageStepView::Remove(dir + "/"@ + "candidate.sha256"@),
            StageStepView::WriteCandidate(dir + "/"@ + "candidate"@),
            StageStepView::WriteSignature(dir + "/"@ + "candidate.sig"@),
            StageStepView::WriteRequest { path: dir + "/"@ + "request"@, version },
        ],
{
}

/// A name is put below a directory with one slash between them.
pub proof fn law_names_stand_below_their_directory(dir: Seq<char>, name: Seq<char>)
    ensures
        dir.len() > 0 && dir.last() != '/' ==> paths::below(dir, name) == dir + "/"@ + name,
        dir.len() == 0 || dir.last() == '/' ==> paths::below(dir, name) == dir + name,
{
}

/// What a manager does with an update: it begins only where none is under way, is over when it is
/// cancelled or has failed, and a failure says what failed and when.
pub proof fn law_manager_follows_the_update(
    m: UpdateManagerView,
    pending: bool,
    idle: Seq<bool>,
    target: Seq<char>,
    message: Seq<char>,
    now: Seq<char>,
)
    ensures
        m.is_active(pending) <==> m.active || pending,
        m.begun(pending) == (UpdateManagerView { active: m.active || !pending, ..m }),
        m.cancelled() == (UpdateManagerView { active: false, ..m }),
        m.failed(target, message, now) == (UpdateManagerView {
            active: false,
            status: UpdateStatusView {
                state: "failed"@,
                target_version: Some(target),
                message,
                updated_at: now,
            },
            ..m
        }),
        ({
            let (answer, after) = update::claimed(m, pending, idle);
            if m.active || pending {
                answer == Err::<(), _>(AppErrorView::Updating) && after == m
            } else if exists|i: int| 0 <= i < idle.len() && !#[trigger] idle[i] {
                answer == Err::<(), _>(AppErrorView::Busy) && after == m
            } else {
                answer == Ok::<(), AppErrorView>(()) && after == (UpdateManagerView {
                    active: true,
                    ..m
                })
            }
        }),
{
    if idle.contains(false) {
        let i = choose|i: int| 0 <= i < idle.len() && idle[i] == false;
        assert(!idle[i]);
    } else {
        assert forall|i: int| 0 <= i < idle.len() implies #[trigger] idle[i] by {
            assert(idle[i] != false);
        }
    }
}

/// The latest release is asked for anew after an hour, and wherever that is wanted.
pub proof fn law_releases_are_kept_for_an_hour(
    m: UpdateManagerView,
    at: u128,
    release: ReleaseInfoView,
    now: u128,
)
    requires
        m.cache == Some((at, release)),
    ensures
        m.cached(true, now) is None,
        m.cached(false, now) == (if now - at < 3600 * 1_000_000_000 {
            Some(release)
        } else {
            None
        }),
        (UpdateManagerView { cache: None, ..m }).cached(false, now) is None,
{
}

/// An update downloads the release's files, checks the archive, takes the program out, hands it
/// over, and then looks at the helper up to ninety times. Each of these comes once, and the status
/// says where it stands.
pub proof fn law_update_proceeds_in_order(
    release: ReleaseInfoView,
    polls: u32,
    m: UpdateManagerView,
    t1: Seq<char>,
    t2: Seq<char>,
    t3: Seq<char>,
    t4: Seq<char>,
)
    ensures
        ({
            let version = release.version;
            let status = |state: Seq<char>, message: Seq<char>, now: Seq<char>|
                UpdateStatusView {
                    state,
                    target_version: Some(version),
                    message,
                    updated_at: now,
                };
            let r0 = UpdateRunView { step: UpdateStep::Download, polls, release };
            let (r1, m1) = r0.next(m, UpdateEventView::Done, t1);
            let (r2, m2) = r1.next(m1, UpdateEventView::Done, t2);
            let (r3, m3) = r2.next(m2, UpdateEventView::Done, t3);
            let (r4, m4) = r3.next(m3, UpdateEventView::Done, t4);
            &&& r0.action() == (UpdateActionView::Download {
                archive_url: release.archive_url,
                checksum_url: release.checksum_url,
                signature_url: release.signature_url,
            })
            &&& r1.action() == (UpdateActionView::Check { version }) && m1 == m
            &&& r2.action() == (UpdateActionView::Extract { version })
            &&& m2 == (UpdateManagerView {
                status: status("verifying"@, "正在校验候选二进制"@, t2),
                ..m
            })
            &&& r3.action() == (UpdateActionView::Stage { version })
            &&& m3 == (UpdateManagerView {
                status: status("ready"@, "校验完成，等待 systemd 更新助手"@, t3),
                ..m
            })
            &&& r4 == (UpdateRunView { step: UpdateStep::Poll, polls: 90, release }) && m4 == m3
            &&& r4.action() == UpdateActionView::Poll
        }),
{
}

/// Before it waits for the helper, an update that fails is over: the status says why, and the panel
/// is free again.
pub proof fn law_failed_updates_are_over(
    run: UpdateRunView,
    m: UpdateManagerView,
    error: AppErrorView,
    now: Seq<char>,
)
    requires
        run.step == UpdateStep::Download || run.step == UpdateStep::Check || run.step
            == UpdateStep::Extract || run.step == UpdateStep::Stage,
    ensures
        ({
            let (after, manager) = run.next(m, UpdateEventView::Failed(error), now);
            &&& after.action() == UpdateActionView::Finished
            &&& manager == (UpdateManagerView {
                active: false,
                status: UpdateStatusView {
                    state: "failed"@,
                    target_version: Some(run.release.version),
                    message: error.message(),
                    updated_at: now,
                },
                ..m
            })
        }),
{
}

/// Waiting for the helper ends when it says that it has failed, gone back or succeeded, and the
/// panel then takes over what it says. Otherwise it is looked at again, until it was looked at
/// often enough; then the request is taken back where it still waits, and that is a failure.
pub proof fn law_waiting_for_the_helper(
    run: UpdateRunView,
    m: UpdateManagerView,
    status: UpdateStatusView,
    pending: bool,
    last: UpdateEventView,
    now: Seq<char>,
)
    requires
        run.step == UpdateStep::Poll,
        last is Done || last is Failed,
    ensures
        ({
            let ended = status.state == "failed"@ || status.state == "rolled_back"@ || status.state
                == "succeeded"@;
            let (after, manager) = run.next(m, UpdateEventView::Status(status), now);
            let given_up = UpdateRunView { step: UpdateStep::GiveUp, ..run };
            let (asked, same) = given_up.next(m, UpdateEventView::Pending(pending), now);
            let withdrawing = UpdateRunView { step: UpdateStep::Withdraw, ..run };
            let (end, freed) = withdrawing.next(m, last, now);
            &&& ended ==> after.action() == UpdateActionView::Finished && manager == (
            UpdateManagerView { status, active: false, ..m })
            &&& !ended && run.polls > 1 ==> manager == m && after == (UpdateRunView {
                polls: (run.polls - 1) as u32,
                ..run
            })
            &&& !ended && run.polls <= 1 ==> manager == m && after.action()
                == UpdateActionView::LookForRequest
            &&& same == m
            &&& m.active || pending ==> asked.action() == UpdateActionView::Withdraw
            &&& !m.active && !pending ==> asked.action() == UpdateActionView::Finished
            &&& end.action() == UpdateActionView::Finished
            &&& freed == (UpdateManagerView {
                active: false,
                status: UpdateStatusView {
                    state: "failed"@,
                    target_version: Some(run.release.version),
                    message: "systemd 更新助手未响应，已取消维护状态"@,
                    updated_at: now,
                },
                ..m
            })
        }),
{
}

/// An update goes on only when it is told what came of its action.
pub proof fn law_update_waits_for_its_answer(
    run: UpdateRunView,
    m: UpdateManagerView,
    event: UpdateEventView,
    now: Seq<char>,
)
    requires
        match run.action() {
            UpdateActionView::Finished => true,
            UpdateActionView::Poll => !(event is Status),
            UpdateActionView::LookForRequest => !(event is Pending),
            _ => event is Status || event is Pending,
        },
    ensures
        run.next(m, event, now) == (run, m),
{
}

/// Whether some bytes are the name of one thing on a path.
pub open spec fn is_part(name: Seq<u8>) -> bool {
    &&& name.len() > 0
    &&& name != seq![46u8]
    &&& forall|i: int| 0 <= i < name.len() ==> #[trigger] name[i] != 47
}

proof fn lemma_first_piece(first: Seq<u8>, rest: Seq<u8>)
    requires
        forall|i: int| 0 <= i < first.len() ==> #[trigger] first[i] != 47,
    ensures
        paths::pieces(first) == seq![first],
        paths::pieces(first + seq![47u8] + rest) == seq![first] + paths::pieces(rest),
{
    let all = first + seq![47u8] + rest;
    let n = first.len() as int;
    paths::lemma_part_len(first);
    paths::lemma_part_len(all);
    assert(all[n] == 47);
    let m = paths::part_len(all);
    if m < n {
        assert(all[m] == first[m]);
    }
    assert(m == n);
    assert(all.take(n) =~= first);
    assert(all.skip(n + 1) =~= rest);
}

proof fn lemma_pieces_append(a: Seq<u8>, b: Seq<u8>)
    ensures
        paths::pieces(a + seq![47u8] + b) == paths::pieces(a) + paths::pieces(b),
        paths::pieces(a).len() > 0,
    decreases a.len(),
{
    paths::lemma_part_len(a);
    let n = paths::part_len(a);
    if n < a.len() {
        let first = a.take(n);
        let rest = a.skip(n + 1);
        assert(a =~= first + seq![47u8] + rest);
        assert(a + seq![47u8] + b =~= first + seq![47u8] + (rest + seq![47u8] + b));
        assert forall|i: int| 0 <= i < first.len() implies #[trigger] first[i] != 47 by {
            assert(first[i] == a[i]);
        }
        lemma_first_piece(first, rest);
        lemma_first_piece(first, rest + seq![47u8] + b);
        lemma_pieces_append(rest, b);
        assert(paths::pieces(a + seq![47u8] + b) =~= paths::pieces(a) + paths::pieces(b));
    } else {
        lemma_first_piece(a, b);
    }
}

/// A path is made of the names between its slashes. Slashes that follow one another, a slash at the
/// end and a dot between slashes add nothing.
pub proof fn law_paths_are_their_names(path: Seq<u8>, name: Seq<u8>)
    requires
        is_part(name),
    ensures
        paths::parts(seq![]) == Seq::<Seq<u8>>::empty(),
        paths::parts(name) == seq![name],
        paths::parts(path + seq![47u8] + name) == paths::parts(path).push(name),
        paths::parts(path + seq![47u8]) == paths::parts(path),
        paths::parts(path + seq![47u8, 46u8]) == paths::parts(path),
{
    let empty = Seq::<u8>::empty();
    let dot = seq![46u8];
    lemma_first_piece(empty, empty);
    lemma_first_piece(name, empty);
    lemma_first_piece(dot, empty);
    lemma_pieces_append(path, name);
    lemma_pieces_append(path, empty);
    lemma_pieces_append(path, dot);
    let before = paths::pieces(path);
    assert(path + seq![47u8] + empty =~= path + seq![47u8]);
    assert(path + seq![47u8] + dot =~= path + seq![47u8, 46u8]);
    lemma_named_push(before, name);
    lemma_named_push(before, empty);
    lemma_named_push(before, dot);
    assert(before + seq![name] =~= before.push(name));
    assert(before + seq![empty] =~= before.push(empty));
    assert(before + seq![dot] =~= before.push(dot));
    lemma_named_push(Seq::empty(), name);
    lemma_named_push(Seq::empty(), empty);
    assert(Seq::<Seq<u8>>::empty().push(name) =~= seq![name]);
    assert(Seq::<Seq<u8>>::empty().push(empty) =~= seq![empty]);
    assert(paths::named(Seq::empty()) =~= Seq::<Seq<u8>>::empty());
    assert(Seq::<Seq<u8>>::empty().push(name) =~= seq![name]);
}

proof fn lemma_named_push(pieces: Seq<Seq<u8>>, piece: Seq<u8>)
    ensures
        paths::named(pieces.push(piece)) == (if piece.len() == 0 || piece == seq![46u8]
            && pieces.len() > 0 {
            paths::named(pieces)
        } else {
            paths::named(pieces).push(piece)
        }),
{
    assert(pieces.push(piece).drop_last() =~= pieces);
}

/// A path may lead out of its directory exactly where it begins with a slash or goes up somewhere.
pub proof fn law_paths_that_lead_out(path: Seq<u8>, name: Seq<u8>)
    requires
        is_part(name),
        path.len() > 0,
    ensures
        path[0] == 47 ==> paths::leads_out(path),
        paths::leads_out(path + seq![47u8, 46u8, 46u8]),
        paths::leads_out(seq![46u8, 46u8]),
        name != seq![46u8, 46u8] ==> (paths::leads_out(path + seq![47u8] + name)
            <==> paths::leads_out(path)),
        name != seq![46u8, 46u8] ==> !paths::leads_out(name),
{
    let up = seq![46u8, 46u8];
    assert(is_part(up)) by {
        assert(up.len() != seq![46u8].len());
    }
    law_paths_are_their_names(path, up);
    law_paths_are_their_names(path, name);
    assert(path + seq![47u8] + up =~= path + seq![47u8, 46u8, 46u8]);
    let parts = paths::parts(path);
    assert(parts.push(up).last() == up);
    assert(parts.push(up).contains(up));
    assert(seq![up][0] == up);
    assert(seq![up].contains(up));
    assert((path + seq![47u8] + name)[0] == path[0]);
    if name != up {
        let all = parts.push(name);
        if parts.contains(up) {
            let i = choose|i: int| 0 <= i < parts.len() && parts[i] == up;
            assert(all[i] == up);
        }
        if all.contains(up) {
            let i = choose|i: int| 0 <= i < all.len() && all[i] == up;
            assert(i < parts.len());
            assert(parts[i] == up);
        }
        assert(!seq![name].contains(up));
        assert(name[0] != 47);
    }
}

/// Two paths are the same exactly where they have the same names, from the same place on.
pub proof fn law_same_paths_have_the_same_names(a: Seq<u8>, b: Seq<u8>)
    ensures
        paths::is_same(a, b) <==> paths::parts(a) == paths::parts(b) && ((a.len() > 0 && a[0] == 47)
            <==> (b.len() > 0 && b[0] == 47)),
{
}

/// Updates are handed over in a directory of their own below the panel's files.
pub proof fn law_updates_have_their_directory(m: UpdateManagerView)
    ensures
        m.data_dir.len() > 0 && m.data_dir.last() != '/' ==> m.update_dir() == m.data_dir + "/"@
            + "update"@,
        m.data_dir.len() == 0 || m.data_dir.last() == '/' ==> m.update_dir() == m.data_dir
            + "update"@,
{
}

} // verus!
