//! The host: how much space there is, and which images may be removed.
//!
//! Fractions are left to the caller: a size comes apart into its number and the factor of its
//! unit, and rows carry the sizes that the caller made of them.
use crate::compose::{self, CommandOutput, CommandOutputView};
use crate::duplicate::{self, Duplicate};
use crate::ordered::{self, Ranked};
use crate::outside;
use crate::text;
use vstd::prelude::*;

verus! {

/// A command on the host.
#[derive(Debug)]
pub struct HostCommand {
    pub program: String,
    pub args: Vec<String>,
    pub cwd: String,
}

pub struct HostCommandView {
    pub program: Seq<char>,
    pub args: Seq<Seq<char>>,
    pub cwd: Seq<char>,
}

impl DeepView for HostCommand {
    type V = HostCommandView;

    open spec fn deep_view(&self) -> HostCommandView {
        HostCommandView {
            program: self.program.deep_view(),
            args: self.args.deep_view(),
            cwd: self.cwd.deep_view(),
        }
    }
}

impl Duplicate for HostCommand {
    fn duplicate(&self) -> (r: Self) {
        HostCommand {
            program: self.program.duplicate(),
            args: self.args.duplicate(),
            cwd: self.cwd.duplicate(),
        }
    }
}

/// How much of a space is used, in bytes.
#[derive(Debug)]
pub struct SpaceUsage {
    pub total_bytes: u64,
    pub used_bytes: u64,
    pub available_bytes: u64,
}

pub struct SpaceUsageView {
    pub total_bytes: u64,
    pub used_bytes: u64,
    pub available_bytes: u64,
}

impl DeepView for SpaceUsage {
    type V = SpaceUsageView;

    open spec fn deep_view(&self) -> SpaceUsageView {
        SpaceUsageView {
            total_bytes: self.total_bytes,
            used_bytes: self.used_bytes,
            available_bytes: self.available_bytes,
        }
    }
}

impl Duplicate for SpaceUsage {
    fn duplicate(&self) -> (r: Self) {
        SpaceUsage {
            total_bytes: self.total_bytes,
            used_bytes: self.used_bytes,
            available_bytes: self.available_bytes,
        }
    }
}

/// How much space one kind of Docker objects takes.
#[derive(Debug)]
pub struct DockerResourceUsage {
    pub total: u64,
    pub active: u64,
    pub size_bytes: u64,
    pub reclaimable_bytes: u64,
}

pub struct DockerResourceUsageView {
    pub total: u64,
    pub active: u64,
    pub size_bytes: u64,
    pub reclaimable_bytes: u64,
}

impl DeepView for DockerResourceUsage {
    type V = DockerResourceUsageView;

    open spec fn deep_view(&self) -> DockerResourceUsageView {
        DockerResourceUsageView {
            total: self.total,
            active: self.active,
            size_bytes: self.size_bytes,
            reclaimable_bytes: self.reclaimable_bytes,
        }
    }
}

impl Duplicate for DockerResourceUsage {
    fn duplicate(&self) -> (r: Self) {
        DockerResourceUsage {
            total: self.total,
            active: self.active,
            size_bytes: self.size_bytes,
            reclaimable_bytes: self.reclaimable_bytes,
        }
    }
}

/// How much space Docker takes.
#[derive(Debug)]
pub struct DockerUsage {
    pub images: DockerResourceUsage,
    pub containers: DockerResourceUsage,
    pub local_volumes: DockerResourceUsage,
    pub build_cache: DockerResourceUsage,
}

pub struct DockerUsageView {
    pub images: DockerResourceUsageView,
    pub containers: DockerResourceUsageView,
    pub local_volumes: DockerResourceUsageView,
    pub build_cache: DockerResourceUsageView,
}

impl DeepView for DockerUsage {
    type V = DockerUsageView;

    open spec fn deep_view(&self) -> DockerUsageView {
        DockerUsageView {
            images: self.images.deep_view(),
            containers: self.containers.deep_view(),
            local_volumes: self.local_volumes.deep_view(),
            build_cache: self.build_cache.deep_view(),
        }
    }
}

impl Duplicate for DockerUsage {
    fn duplicate(&self) -> (r: Self) {
        DockerUsage {
            images: self.images.duplicate(),
            containers: self.containers.duplicate(),
            local_volumes: self.local_volumes.duplicate(),
            build_cache: self.build_cache.duplicate(),
        }
    }
}

/// A service that an image belongs to.
#[derive(Debug)]
pub struct ImageReference {
    pub project_id: String,
    pub service_id: String,
}

pub struct ImageReferenceView {
    pub project_id: Seq<char>,
    pub service_id: Seq<char>,
}

impl DeepView for ImageReference {
    type V = ImageReferenceView;

    open spec fn deep_view(&self) -> ImageReferenceView {
        ImageReferenceView {
            project_id: self.project_id.deep_view(),
            service_id: self.service_id.deep_view(),
        }
    }
}

impl Duplicate for ImageReference {
    fn duplicate(&self) -> (r: Self) {
        ImageReference {
            project_id: self.project_id.duplicate(),
            service_id: self.service_id.duplicate(),
        }
    }
}

/// An image of a repository that some service uses.
#[derive(Debug)]
pub struct ManagedImage {
    pub id: String,
    pub repository: String,
    pub tag: String,
    pub digest: Option<String>,
    pub size_bytes: u64,
    pub created_at: String,
    pub containers: u64,
    pub services: Vec<ImageReference>,
    pub protected_reasons: Vec<String>,
    pub removable: bool,
}

pub struct ManagedImageView {
    pub id: Seq<char>,
    pub repository: Seq<char>,
    pub tag: Seq<char>,
    pub digest: Option<Seq<char>>,
    pub size_bytes: u64,
    pub created_at: Seq<char>,
    pub containers: u64,
    pub services: Seq<ImageReferenceView>,
    pub protected_reasons: Seq<Seq<char>>,
    pub removable: bool,
}

impl DeepView for ManagedImage {
    type V = ManagedImageView;

    open spec fn deep_view(&self) -> ManagedImageView {
        ManagedImageView {
            id: self.id.deep_view(),
            repository: self.repository.deep_view(),
            tag: self.tag.deep_view(),
            digest: self.digest.deep_view(),
            size_bytes: self.size_bytes,
            created_at: self.created_at.deep_view(),
            containers: self.containers,
            services: self.services.deep_view(),
            protected_reasons: self.protected_reasons.deep_view(),
            removable: self.removable,
        }
    }
}

impl Duplicate for ManagedImage {
    fn duplicate(&self) -> (r: Self) {
        ManagedImage {
            id: self.id.duplicate(),
            repository: self.repository.duplicate(),
            tag: self.tag.duplicate(),
            digest: self.digest.duplicate(),
            size_bytes: self.size_bytes,
            created_at: self.created_at.duplicate(),
            containers: self.containers,
            services: self.services.duplicate(),
            protected_reasons: self.protected_reasons.duplicate(),
            removable: self.removable,
        }
    }
}

/// A service and the repository of its image.
#[derive(Debug)]
pub struct ServiceImage {
    pub project_id: String,
    pub service_id: String,
    pub repository: String,
}

pub struct ServiceImageView {
    pub project_id: Seq<char>,
    pub service_id: Seq<char>,
    pub repository: Seq<char>,
}

impl DeepView for ServiceImage {
    type V = ServiceImageView;

    open spec fn deep_view(&self) -> ServiceImageView {
        ServiceImageView {
            project_id: self.project_id.deep_view(),
            service_id: self.service_id.deep_view(),
            repository: self.repository.deep_view(),
        }
    }
}

impl Duplicate for ServiceImage {
    fn duplicate(&self) -> (r: Self) {
        ServiceImage {
            project_id: self.project_id.duplicate(),
            service_id: self.service_id.duplicate(),
            repository: self.repository.duplicate(),
        }
    }
}

/// A row of `docker system df`, with its sizes as they were read.
#[derive(Debug)]
pub struct DockerDfRow {
    pub kind: String,
    pub total: String,
    pub active: String,
    pub size: Result<u64, String>,
    pub reclaimable: Result<u64, String>,
}

pub struct DockerDfRowView {
    pub kind: Seq<char>,
    pub total: Seq<char>,
    pub active: Seq<char>,
    pub size: Result<u64, Seq<char>>,
    pub reclaimable: Result<u64, Seq<char>>,
}

impl DeepView for DockerDfRow {
    type V = DockerDfRowView;

    open spec fn deep_view(&self) -> DockerDfRowView {
        DockerDfRowView {
            kind: self.kind@,
            total: self.total@,
            active: self.active@,
            size: duplicate::outcome(self.size),
            reclaimable: duplicate::outcome(self.reclaimable),
        }
    }
}

/// A row of `docker image ls`, with its size as it was read.
#[derive(Debug)]
pub struct DockerImageRow {
    pub id: String,
    pub repository: String,
    pub tag: String,
    pub digest: String,
    pub size: Result<u64, String>,
    pub created_at: String,
    pub containers: String,
}

pub struct DockerImageRowView {
    pub id: Seq<char>,
    pub repository: Seq<char>,
    pub tag: Seq<char>,
    pub digest: Seq<char>,
    pub size: Result<u64, Seq<char>>,
    pub created_at: Seq<char>,
    pub containers: Seq<char>,
}

impl DeepView for DockerImageRow {
    type V = DockerImageRowView;

    open spec fn deep_view(&self) -> DockerImageRowView {
        DockerImageRowView {
            id: self.id@,
            repository: self.repository@,
            tag: self.tag@,
            digest: self.digest@,
            size: duplicate::outcome(self.size),
            created_at: self.created_at@,
            containers: self.containers@,
        }
    }
}

pub open spec fn no_usage() -> DockerResourceUsageView {
    DockerResourceUsageView { total: 0, active: 0, size_bytes: 0, reclaimable_bytes: 0 }
}

impl Default for DockerResourceUsage {
    fn default() -> (r: Self)
        ensures
            r.deep_view() == no_usage(),
    {
        DockerResourceUsage { total: 0, active: 0, size_bytes: 0, reclaimable_bytes: 0 }
    }
}

impl Default for DockerUsage {
    fn default() -> (r: Self)
        ensures
            r.deep_view() == (DockerUsageView {
                images: no_usage(),
                containers: no_usage(),
                local_volumes: no_usage(),
                build_cache: no_usage(),
            }),
    {
        DockerUsage {
            images: DockerResourceUsage::default(),
            containers: DockerResourceUsage::default(),
            local_volumes: DockerResourceUsage::default(),
            build_cache: DockerResourceUsage::default(),
        }
    }
}

/// How long a command on the host may run, in seconds.
pub fn command_timeout() -> (r: u64)
    ensures
        r == 30,
{
    30
}

/// The commands that are run on the host.
#[derive(Debug)]
pub struct SystemManager {
    cwd: String,
}

impl DeepView for SystemManager {
    type V = Seq<char>;

    closed spec fn deep_view(&self) -> Seq<char> {
        self.cwd@
    }
}

pub open spec fn docker(cwd: Seq<char>, args: Seq<Seq<char>>) -> HostCommandView {
    HostCommandView { program: "docker"@, args, cwd }
}

impl SystemManager {
    pub fn new(cwd: String) -> (r: Self)
        ensures
            r.deep_view() == cwd@,
    {
        SystemManager { cwd }
    }

    fn docker_command(&self, args: Vec<String>) -> (r: HostCommand)
        ensures
            r.deep_view() == docker(self.deep_view(), args.deep_view()),
    {
        HostCommand { program: "docker".to_owned(), args, cwd: self.cwd.clone() }
    }

    /// Reads the space of the file system that holds a path.
    pub fn disk(&self, path: &str) -> (r: HostCommand)
        ensures
            r.deep_view() == (HostCommandView {
                program: "df"@,
                args: seq!["-B1"@, "--output=size,used,avail,pcent"@, path@],
                cwd: self.deep_view(),
            }),
    {
        let args = text::list_of(&["-B1", "--output=size,used,avail,pcent", path]);
        proof {
            assert(args.deep_view() =~= seq!["-B1"@, "--output=size,used,avail,pcent"@, path@]);
        }
        HostCommand { program: "df".to_owned(), args, cwd: self.cwd.clone() }
    }

    /// Reads where the file system that holds a path is mounted.
    pub fn mount_point(&self, path: &str) -> (r: HostCommand)
        ensures
            r.deep_view() == (HostCommandView {
                program: "df"@,
                args: seq!["--output=target"@, path@],
                cwd: self.deep_view(),
            }),
    {
        let args = text::list_of(&["--output=target", path]);
        proof {
            assert(args.deep_view() =~= seq!["--output=target"@, path@]);
        }
        HostCommand { program: "df".to_owned(), args, cwd: self.cwd.clone() }
    }

    pub fn docker_usage(&self) -> (r: HostCommand)
        ensures
            r.deep_view() == docker(
                self.deep_view(),
                seq!["system"@, "df"@, "--format"@, "{{json .}}"@],
            ),
    {
        let args = text::list_of(&["system", "df", "--format", "{{json .}}"]);
        proof {
            assert(args.deep_view() =~= seq!["system"@, "df"@, "--format"@, "{{json .}}"@]);
        }
        self.docker_command(args)
    }

    /// Lists all images with their full IDs.
    pub fn images(&self) -> (r: HostCommand)
        ensures
            r.deep_view() == docker(
                self.deep_view(),
                seq!["image"@, "ls"@, "--digests"@, "--no-trunc"@, "--format"@, "{{json .}}"@],
            ),
    {
        let args = text::list_of(
            &["image", "ls", "--digests", "--no-trunc", "--format", "{{json .}}"],
        );
        proof {
            assert(args.deep_view() =~= seq![
                "image"@,
                "ls"@,
                "--digests"@,
                "--no-trunc"@,
                "--format"@,
                "{{json .}}"@,
            ]);
        }
        self.docker_command(args)
    }

    /// Lists all containers, also those that are stopped.
    pub fn containers(&self) -> (r: HostCommand)
        ensures
            r.deep_view() == docker(
                self.deep_view(),
                seq!["container"@, "ls"@, "--all"@, "--quiet"@, "--no-trunc"@],
            ),
    {
        let args = text::list_of(&["container", "ls", "--all", "--quiet", "--no-trunc"]);
        proof {
            assert(args.deep_view() =~= seq![
                "container"@,
                "ls"@,
                "--all"@,
                "--quiet"@,
                "--no-trunc"@,
            ]);
        }
        self.docker_command(args)
    }

    /// Reads the image of each of these containers. Where there are none, nothing is to be read.
    pub fn container_images(&self, ids: &Vec<String>) -> (r: Option<HostCommand>)
        ensures
            r.deep_view() == (if ids@.len() == 0 {
                None
            } else {
                Some(
                    docker(
                        self.deep_view(),
                        seq!["container"@, "inspect"@, "--format"@, "{{.Image}}"@]
                            + ids.deep_view(),
                    ),
                )
            }),
    {
        if ids.len() == 0 {
            return None;
        }
        let mut args = text::list_of(&["container", "inspect", "--format", "{{.Image}}"]);
        proof {
            assert(args.deep_view() =~= seq![
                "container"@,
                "inspect"@,
                "--format"@,
                "{{.Image}}"@,
            ]);
        }
        text::extend(&mut args, ids);
        Some(self.docker_command(args))
    }

    /// Removes one image by its full ID.
    pub fn remove_image(&self, image_id: &str) -> (r: HostCommand)
        ensures
            r.deep_view() == docker(self.deep_view(), seq!["image"@, "rm"@, image_id@]),
    {
        let args = text::list_of(&["image", "rm", image_id]);
        proof {
            assert(args.deep_view() =~= seq!["image"@, "rm"@, image_id@]);
        }
        self.docker_command(args)
    }

    /// Removes build cache that was not used for seven days.
    pub fn prune_build_cache(&self) -> (r: HostCommand)
        ensures
            r.deep_view() == docker(
                self.deep_view(),
                seq!["builder"@, "prune"@, "--force"@, "--filter"@, "until=168h"@],
            ),
    {
        let args = text::list_of(&["builder", "prune", "--force", "--filter", "until=168h"]);
        proof {
            assert(args.deep_view() =~= seq![
                "builder"@,
                "prune"@,
                "--force"@,
                "--filter"@,
                "until=168h"@,
            ]);
        }
        self.docker_command(args)
    }
}

/// What a command on the host printed, or why it counts as failed.
pub open spec fn host_log(
    program: Seq<char>,
    result: Result<CommandOutputView, Seq<char>>,
) -> Result<Seq<char>, Seq<char>> {
    match result {
        Err(error) => Err(error),
        Ok(output) => if output.success {
            Ok(output.log)
        } else if program == "df"@ {
            Err("df 执行失败: "@ + text::trim(output.log))
        } else {
            Err("Docker 命令执行失败: "@ + text::trim(output.log))
        },
    }
}

impl HostCommand {
    /// What the command printed, or why it counts as failed.
    pub fn result(&self, result: Result<CommandOutput, String>) -> (r: Result<String, String>)
        ensures
            duplicate::outcome(r) == host_log(
                self.deep_view().program,
                duplicate::outcome(result),
            ),
    {
        match result {
            Err(error) => Err(error),
            Ok(output) => {
                if output.success {
                    return Ok(output.log);
                }
                let message = text::trimmed(output.log.as_str());
                if text::same(self.program.as_str(), "df") {
                    Err(text::joined2("df 执行失败: ", message.as_str()))
                } else {
                    Err(text::joined2("Docker 命令执行失败: ", message.as_str()))
                }
            },
        }
    }
}

/// The last line that holds something.
pub open spec fn last_line(lines: Seq<Seq<char>>) -> Option<Seq<char>>
    decreases lines.len(),
{
    if lines.len() == 0 {
        None
    } else if text::trim(lines.last()).len() > 0 {
        Some(lines.last())
    } else {
        last_line(lines.drop_last())
    }
}

fn last_content_line(value: &str) -> (r: Option<String>)
    ensures
        r.deep_view() == last_line(text::lines(value@)),
{
    let lines = text::line_list(value);
    let ghost all = lines.deep_view();
    let mut i: usize = lines.len();
    proof {
        assert(all.take(i as int) =~= all);
    }
    while i > 0
        invariant
            i <= lines@.len(),
            all == lines.deep_view(),
            all == text::lines(value@),
            last_line(all.take(i as int)) == last_line(all),
        decreases i,
    {
        proof {
            assert(all.take(i as int).last() == lines@[i - 1]@);
            assert(all.take(i as int).drop_last() =~= all.take(i - 1));
        }
        if !text::blank(lines[i - 1].as_str()) {
            return Some(lines[i - 1].clone());
        }
        i = i - 1;
    }
    None
}

/// The numbers that a list of texts spells, up to the first that spells none.
pub open spec fn numbers(fields: Seq<Seq<char>>) -> Result<Seq<u64>, Seq<char>>
    decreases fields.len(),
{
    if fields.len() == 0 {
        Ok(Seq::empty())
    } else {
        match (numbers(fields.drop_last()), text::number(fields.last())) {
            (Err(error), _) => Err(error),
            (Ok(list), Some(n)) => Ok(list.push(n)),
            (Ok(_), None) => Err(outside::number_error(fields.last())),
        }
    }
}

/// The sizes that `df` printed, and the percentage that is used, as a text.
pub open spec fn disk_usage(value: Seq<char>) -> Result<(SpaceUsageView, Seq<char>), Seq<char>> {
    match last_line(text::lines(value)) {
        None => Err("df 未返回磁盘信息"@),
        Some(line) => {
            let fields = text::words(line);
            if fields.len() != 4 {
                Err("df 返回格式无效"@)
            } else {
                match numbers(fields.take(3)) {
                    Err(error) => Err(error),
                    Ok(n) => Ok(
                        (
                            SpaceUsageView {
                                total_bytes: n[0],
                                used_bytes: n[1],
                                available_bytes: n[2],
                            },
                            text::trim_end_char(fields[3], '%'),
                        ),
                    ),
                }
            }
        },
    }
}

proof fn lemma_three_numbers(a: Seq<char>, b: Seq<char>, c: Seq<char>, all: Seq<Seq<char>>)
    requires
        all =~= seq![a, b, c],
    ensures
        numbers(all) == (match (text::number(a), text::number(b), text::number(c)) {
            (None, _, _) => Err::<Seq<u64>, _>(outside::number_error(a)),
            (Some(_), None, _) => Err(outside::number_error(b)),
            (Some(_), Some(_), None) => Err(outside::number_error(c)),
            (Some(x), Some(y), Some(z)) => Ok(seq![x, y, z]),
        }),
{
    reveal_with_fuel(numbers, 4);
    let two = all.drop_last();
    let one = two.drop_last();
    assert(one.drop_last() =~= Seq::<Seq<char>>::empty());
    assert(numbers(one.drop_last()) == Ok::<_, Seq<char>>(Seq::<u64>::empty()));
    assert(one.last() == a && two.last() == b && all.last() == c);
    if let (Some(x), Some(y), Some(z)) = (text::number(a), text::number(b), text::number(c)) {
        assert(Seq::<u64>::empty().push(x).push(y).push(z) =~= seq![x, y, z]);
    }
}

/// Reads the output of `df`.
pub fn parse_df(value: &str) -> (r: Result<(SpaceUsage, String), String>)
    ensures
        duplicate::outcome(r) == disk_usage(value@),
{
    let line = match last_content_line(value) {
        Some(line) => line,
        None => {
            return Err("df 未返回磁盘信息".to_owned());
        },
    };
    let fields = text::word_list(line.as_str());
    if fields.len() != 4 {
        return Err("df 返回格式无效".to_owned());
    }
    proof {
        lemma_three_numbers(
            fields@[0]@,
            fields@[1]@,
            fields@[2]@,
            text::words(line@).take(3),
        );
    }
    let total_bytes: u64 = match outside::parse_number(fields[0].as_str()) {
        Ok(n) => n,
        Err(error) => {
            return Err(error);
        },
    };
    let used_bytes: u64 = match outside::parse_number(fields[1].as_str()) {
        Ok(n) => n,
        Err(error) => {
            return Err(error);
        },
    };
    let available_bytes: u64 = match outside::parse_number(fields[2].as_str()) {
        Ok(n) => n,
        Err(error) => {
            return Err(error);
        },
    };
    let percent = text::trimmed_end_char(fields[3].as_str(), '%');
    Ok((SpaceUsage { total_bytes, used_bytes, available_bytes }, percent))
}

/// Where a file system is mounted, as `df` printed it.
pub open spec fn mount_target(value: Seq<char>) -> Result<Seq<char>, Seq<char>> {
    match last_line(text::lines(value)) {
        None => Err("df 未返回磁盘信息"@),
        Some(line) => Ok(text::trim(line)),
    }
}

pub fn parse_mount(value: &str) -> (r: Result<String, String>)
    ensures
        duplicate::outcome(r) == mount_target(value@),
{
    match last_content_line(value) {
        Some(line) => Ok(text::trimmed(line.as_str())),
        None => Err("df 未返回磁盘信息".to_owned()),
    }
}

/// Whether two paths lie on one file system, given where theirs are mounted.
pub fn same_disk(first: &str, second: &str) -> (r: bool)
    ensures
        r == (first@ == second@),
{
    text::same(first, second)
}

pub open spec fn kibibytes(n: u64) -> u64 {
    if n * 1024 <= u64::MAX {
        (n * 1024) as u64
    } else {
        u64::MAX
    }
}

/// The fields of `/proc/meminfo` in bytes, up to the first that holds no number.
pub open spec fn memory_fields(lines: Seq<Seq<char>>) -> Result<Seq<(Seq<char>, u64)>, Seq<char>>
    decreases lines.len(),
{
    if lines.len() == 0 {
        Ok(Seq::empty())
    } else {
        match memory_fields(lines.drop_last()) {
            Err(error) => Err(error),
            Ok(fields) => match text::split_once(lines.last(), ':') {
                None => Ok(fields),
                Some((key, rest)) => {
                    let words = text::words(rest);
                    if words.len() == 0 {
                        Ok(fields)
                    } else {
                        match text::number(words[0]) {
                            Some(n) => Ok(ordered::with_entry(fields, key, kibibytes(n))),
                            None => Err(outside::number_error(words[0])),
                        }
                    }
                },
            },
        }
    }
}

pub open spec fn memory_usage(
    fields: Seq<(Seq<char>, u64)>,
    total_key: Seq<char>,
    available_key: Seq<char>,
) -> Result<SpaceUsageView, Seq<char>> {
    match ordered::value_of(fields, total_key) {
        None => Err("/proc/meminfo 缺少 "@ + total_key),
        Some(total) => {
            let available = match ordered::value_of(fields, available_key) {
                Some(n) => n,
                None => 0,
            };
            Ok(
                SpaceUsageView {
                    total_bytes: total,
                    used_bytes: if total > available {
                        (total - available) as u64
                    } else {
                        0
                    },
                    available_bytes: available,
                },
            )
        },
    }
}

/// The memory and the swap space that `/proc/meminfo` tells of.
pub open spec fn memory_and_swap(value: Seq<char>) -> Result<
    (SpaceUsageView, SpaceUsageView),
    Seq<char>,
> {
    match memory_fields(text::lines(value)) {
        Err(error) => Err(error),
        Ok(fields) => match (
            memory_usage(fields, "MemTotal"@, "MemAvailable"@),
            memory_usage(fields, "SwapTotal"@, "SwapFree"@),
        ) {
            (Err(error), _) => Err(error),
            (Ok(_), Err(error)) => Err(error),
            (Ok(memory), Ok(swap)) => Ok((memory, swap)),
        },
    }
}

fn usage(fields: &Vec<(String, u64)>, total_key: &str, available_key: &str) -> (r: Result<
    SpaceUsage,
    String,
>)
    ensures
        duplicate::outcome(r) == memory_usage(fields.deep_view(), total_key@, available_key@),
{
    let total_bytes: u64 = match ordered::find_value(fields, total_key) {
        Some(n) => *n,
        None => {
            return Err(text::joined2("/proc/meminfo 缺少 ", total_key));
        },
    };
    let available_bytes: u64 = match ordered::find_value(fields, available_key) {
        Some(n) => *n,
        None => 0,
    };
    let used_bytes: u64 = if total_bytes > available_bytes {
        total_bytes - available_bytes
    } else {
        0
    };
    Ok(SpaceUsage { total_bytes, used_bytes, available_bytes })
}

proof fn lemma_memory_error(lines: Seq<Seq<char>>, n: int)
    requires
        0 <= n <= lines.len(),
        memory_fields(lines.take(n)) is Err,
    ensures
        memory_fields(lines) == memory_fields(lines.take(n)),
    decreases lines.len() - n,
{
    if n < lines.len() {
        assert(lines.take(n + 1).drop_last() =~= lines.take(n));
        lemma_memory_error(lines, n + 1);
    } else {
        assert(lines.take(n) =~= lines);
    }
}

fn meminfo_fields(value: &str) -> (r: Result<Vec<(String, u64)>, String>)
    ensures
        duplicate::outcome(r) == memory_fields(text::lines(value@)),
{
    let lines = text::line_list(value);
    let ghost all = lines.deep_view();
    let mut fields: Vec<(String, u64)> = Vec::new();
    let mut i: usize = 0;
    proof {
        assert(all.take(0) =~= Seq::empty());
        assert(fields.deep_view() =~= Seq::<(Seq<char>, u64)>::empty());
    }
    while i < lines.len()
        invariant
            i <= lines@.len(),
            all == lines.deep_view(),
            all == text::lines(value@),
            memory_fields(all.take(i as int)) == Ok::<_, Seq<char>>(fields.deep_view()),
        decreases lines@.len() - i,
    {
        proof {
            assert(all.take(i + 1).drop_last() =~= all.take(i as int));
            assert(all.take(i + 1).last() == lines@[i as int]@);
        }
        if let Some((key, rest)) = text::cut_once(lines[i].as_str(), ':') {
            let words = text::word_list(rest.as_str());
            if words.len() > 0 {
                proof {
                    assert(text::words(rest@)[0] == words@[0]@);
                }
                match outside::parse_number(words[0].as_str()) {
                    Ok(n) => {
                        let bytes: u64 = if n <= u64::MAX / 1024 {
                            n * 1024
                        } else {
                            u64::MAX
                        };
                        ordered::put_entry(&mut fields, key, bytes);
                    },
                    Err(error) => {
                        proof {
                            lemma_memory_error(all, i + 1);
                        }
                        return Err(error);
                    },
                }
            }
        }
        i = i + 1;
    }
    proof {
        assert(all.take(i as int) =~= all);
    }
    Ok(fields)
}

/// Reads `/proc/meminfo`: the memory and the swap space.
pub fn parse_meminfo(value: &str) -> (r: Result<(SpaceUsage, SpaceUsage), String>)
    ensures
        duplicate::outcome(r) == memory_and_swap(value@),
{
    let fields = match meminfo_fields(value) {
        Ok(fields) => fields,
        Err(error) => {
            return Err(error);
        },
    };
    match usage(&fields, "MemTotal", "MemAvailable") {
        Err(error) => Err(error),
        Ok(memory) => match usage(&fields, "SwapTotal", "SwapFree") {
            Err(error) => Err(error),
            Ok(swap) => Ok((memory, swap)),
        },
    }
}

/// Whether what is used and what is available make up the total. More may be available than
/// there is in total; then nothing is used.
pub open spec fn adds_up(usage: SpaceUsageView) -> bool {
    if usage.available_bytes <= usage.total_bytes {
        usage.used_bytes + usage.available_bytes == usage.total_bytes
    } else {
        usage.used_bytes == 0
    }
}

/// Memory and swap space add up.
pub proof fn law_memory_adds_up(value: Seq<char>)
    requires
        memory_and_swap(value) is Ok,
    ensures
        adds_up(memory_and_swap(value)->Ok_0.0),
        adds_up(memory_and_swap(value)->Ok_0.1),
{
}

/// The number at the beginning of a size: digits and points.
pub open spec fn number_len(s: Seq<char>) -> int
    decreases s.len(),
{
    if s.len() > 0 && (text::is_digit(s[0]) || s[0] == '.') {
        1 + number_len(s.drop_first())
    } else {
        0
    }
}

/// Takes a size apart: the text of its number, and its unit.
pub fn size_parts(value: &str) -> (r: (String, String))
    ensures
        r.0@ == value@.take(number_len(value@)),
        r.1@ == text::trim(value@.skip(number_len(value@))),
{
    let cs = text::chars_of(value);
    let mut i: usize = 0;
    proof {
        assert(cs@.skip(0) =~= cs@);
    }
    while i < cs.len() && (('0' <= cs[i] && cs[i] <= '9') || cs[i] == '.')
        invariant
            i <= cs@.len(),
            i + number_len(cs@.skip(i as int)) == number_len(cs@),
        decreases cs@.len() - i,
    {
        proof {
            assert(cs@.skip(i as int)[0] == cs@[i as int]);
            assert(cs@.skip(i as int).drop_first() =~= cs@.skip(i + 1));
        }
        i = i + 1;
    }
    proof {
        if i < cs@.len() {
            assert(cs@.skip(i as int)[0] == cs@[i as int]);
        }
        assert(cs@.subrange(0, i as int) =~= cs@.take(i as int));
        assert(cs@.subrange(i as int, cs@.len() as int) =~= cs@.skip(i as int));
    }
    let number = text::text_of(&cs, 0, i);
    let unit = text::text_of(&cs, i, cs.len());
    (number, text::trimmed(unit.as_str()))
}

/// The number of bytes in a unit of size.
pub open spec fn unit_bytes(unit: Seq<char>) -> Option<u64> {
    if unit == "B"@ || unit.len() == 0 {
        Some(1)
    } else if unit == "kB"@ || unit == "KB"@ {
        Some(1_000)
    } else if unit == "MB"@ {
        Some(1_000_000)
    } else if unit == "GB"@ {
        Some(1_000_000_000)
    } else if unit == "TB"@ {
        Some(1_000_000_000_000)
    } else if unit == "KiB"@ {
        Some(1_024)
    } else if unit == "MiB"@ {
        Some(1_048_576)
    } else if unit == "GiB"@ {
        Some(1_073_741_824)
    } else if unit == "TiB"@ {
        Some(1_099_511_627_776)
    } else {
        None
    }
}

pub fn unit_multiplier(unit: &str) -> (r: Result<u64, String>)
    ensures
        match unit_bytes(unit@) {
            Some(n) => r == Ok::<u64, String>(n),
            None => r is Err && r->Err_0@ == "无法识别空间单位: "@ + unit@,
        },
{
    if text::same(unit, "B") || unit.unicode_len() == 0 {
        Ok(1)
    } else if text::same(unit, "kB") || text::same(unit, "KB") {
        Ok(1_000)
    } else if text::same(unit, "MB") {
        Ok(1_000_000)
    } else if text::same(unit, "GB") {
        Ok(1_000_000_000)
    } else if text::same(unit, "TB") {
        Ok(1_000_000_000_000)
    } else if text::same(unit, "KiB") {
        Ok(1_024)
    } else if text::same(unit, "MiB") {
        Ok(1_048_576)
    } else if text::same(unit, "GiB") {
        Ok(1_073_741_824)
    } else if text::same(unit, "TiB") {
        Ok(1_099_511_627_776)
    } else {
        Err(text::joined2("无法识别空间单位: ", unit))
    }
}

/// The first word of a text, or nothing.
pub fn first_word(value: &str) -> (r: String)
    ensures
        r@ == (if text::words(value@).len() > 0 {
            text::words(value@)[0]
        } else {
            Seq::empty()
        }),
{
    let words = text::word_list(value);
    if words.len() > 0 {
        proof {
            assert(text::words(value@)[0] == words@[0]@);
        }
        words[0].clone()
    } else {
        String::new()
    }
}

pub open spec fn resource_of(row: DockerDfRowView) -> Result<DockerResourceUsageView, Seq<char>> {
    match (text::number(row.total), text::number(row.active), row.size, row.reclaimable) {
        (None, _, _, _) => Err(outside::number_error(row.total)),
        (Some(_), None, _, _) => Err(outside::number_error(row.active)),
        (Some(_), Some(_), Err(error), _) => Err(error),
        (Some(_), Some(_), Ok(_), Err(error)) => Err(error),
        (Some(total), Some(active), Ok(size_bytes), Ok(reclaimable_bytes)) => Ok(
            DockerResourceUsageView { total, active, size_bytes, reclaimable_bytes },
        ),
    }
}

pub open spec fn with_resource(
    usage: DockerUsageView,
    kind: Seq<char>,
    resource: DockerResourceUsageView,
) -> DockerUsageView {
    if kind == "Images"@ {
        DockerUsageView { images: resource, ..usage }
    } else if kind == "Containers"@ {
        DockerUsageView { containers: resource, ..usage }
    } else if kind == "Local Volumes"@ {
        DockerUsageView { local_volumes: resource, ..usage }
    } else if kind == "Build Cache"@ {
        DockerUsageView { build_cache: resource, ..usage }
    } else {
        usage
    }
}

/// The rows of `docker system df` by their kinds, up to the first that cannot be read.
pub open spec fn docker_usage_of(rows: Seq<Result<DockerDfRowView, Seq<char>>>) -> Result<
    DockerUsageView,
    Seq<char>,
>
    decreases rows.len(),
{
    if rows.len() == 0 {
        Ok(
            DockerUsageView {
                images: no_usage(),
                containers: no_usage(),
                local_volumes: no_usage(),
                build_cache: no_usage(),
            },
        )
    } else {
        match (docker_usage_of(rows.drop_last()), rows.last()) {
            (Err(error), _) => Err(error),
            (Ok(_), Err(error)) => Err(error),
            (Ok(usage), Ok(row)) => match resource_of(row) {
                Err(error) => Err(error),
                Ok(resource) => Ok(with_resource(usage, row.kind, resource)),
            },
        }
    }
}

pub open spec fn read_rows<T: DeepView>(rows: Seq<Result<T, String>>) -> Seq<
    Result<T::V, Seq<char>>,
> {
    rows.map_values(|r: Result<T, String>| duplicate::outcome(r))
}

proof fn lemma_docker_usage_error(rows: Seq<Result<DockerDfRowView, Seq<char>>>, n: int)
    requires
        0 <= n <= rows.len(),
        docker_usage_of(rows.take(n)) is Err,
    ensures
        docker_usage_of(rows) == docker_usage_of(rows.take(n)),
    decreases rows.len() - n,
{
    if n < rows.len() {
        assert(rows.take(n + 1).drop_last() =~= rows.take(n));
        lemma_docker_usage_error(rows, n + 1);
    } else {
        assert(rows.take(n) =~= rows);
    }
}

fn read_size(size: &Result<u64, String>) -> (r: Result<u64, String>)
    ensures
        duplicate::outcome(r) == duplicate::outcome(*size),
{
    match size {
        Ok(n) => Ok(*n),
        Err(error) => Err(error.clone()),
    }
}

fn read_resource(row: &DockerDfRow) -> (r: Result<DockerResourceUsage, String>)
    ensures
        duplicate::outcome(r) == resource_of(row.deep_view()),
{
    let total: u64 = match outside::parse_number(row.total.as_str()) {
        Ok(n) => n,
        Err(error) => {
            return Err(error);
        },
    };
    let active: u64 = match outside::parse_number(row.active.as_str()) {
        Ok(n) => n,
        Err(error) => {
            return Err(error);
        },
    };
    match read_size(&row.size) {
        Err(error) => Err(error),
        Ok(size_bytes) => match read_size(&row.reclaimable) {
            Err(error) => Err(error),
            Ok(reclaimable_bytes) => Ok(
                DockerResourceUsage { total, active, size_bytes, reclaimable_bytes },
            ),
        },
    }
}

/// Reads the rows of `docker system df`. Each row comes as it was read, or with the reason why it
/// could not be.
pub fn parse_docker_df(rows: &Vec<Result<DockerDfRow, String>>) -> (r: Result<DockerUsage, String>)
    ensures
        duplicate::outcome(r) == docker_usage_of(read_rows(rows@)),
{
    let ghost all = read_rows(rows@);
    let mut usage = DockerUsage::default();
    let mut i: usize = 0;
    proof {
        assert(all.take(0) =~= Seq::empty());
    }
    while i < rows.len()
        invariant
            i <= rows@.len(),
            all == read_rows(rows@),
            docker_usage_of(all.take(i as int)) == Ok::<_, Seq<char>>(usage.deep_view()),
        decreases rows@.len() - i,
    {
        proof {
            assert(all.take(i + 1).drop_last() =~= all.take(i as int));
            assert(all.take(i + 1).last() == duplicate::outcome(rows@[i as int]));
            if docker_usage_of(all.take(i + 1)) is Err {
                lemma_docker_usage_error(all, i + 1);
            }
        }
        match &rows[i] {
            Err(error) => {
                return Err(error.clone());
            },
            Ok(row) => match read_resource(row) {
                Err(error) => {
                    return Err(error);
                },
                Ok(resource) => {
                    let kind = row.kind.as_str();
                    if text::same(kind, "Images") {
                        usage.images = resource;
                    } else if text::same(kind, "Containers") {
                        usage.containers = resource;
                    } else if text::same(kind, "Local Volumes") {
                        usage.local_volumes = resource;
                    } else if text::same(kind, "Build Cache") {
                        usage.build_cache = resource;
                    }
                },
            },
        }
        i = i + 1;
    }
    proof {
        assert(all.take(i as int) =~= all);
    }
    Ok(usage)
}

/// Images are listed by their repositories, within one the newest first, and those of the same
/// time by their tags.
pub open spec fn image_before(a: ManagedImageView, b: ManagedImageView) -> bool {
    ||| ordered::precedes(a.repository, b.repository)
    ||| a.repository == b.repository && ordered::precedes(b.created_at, a.created_at)
    ||| a.repository == b.repository && a.created_at == b.created_at && ordered::precedes(
        a.tag,
        b.tag,
    )
}

pub(crate) proof fn lemma_image_ranks(a: ManagedImageView, b: ManagedImageView, c: ManagedImageView)
    ensures
        image_before(a, b) ==> !image_before(b, a),
        !image_before(a, b) && !image_before(b, c) ==> !image_before(a, c),
{
    ordered::lemma_precedes_ranks(a.repository, b.repository, c.repository);
    ordered::lemma_precedes_ranks(b.repository, a.repository, a.repository);
    ordered::lemma_precedes_ranks(c.created_at, b.created_at, a.created_at);
    ordered::lemma_precedes_ranks(b.created_at, a.created_at, a.created_at);
    ordered::lemma_precedes_ranks(a.tag, b.tag, c.tag);
    ordered::lemma_precedes_total(a.repository, b.repository);
    ordered::lemma_precedes_total(b.repository, c.repository);
    ordered::lemma_precedes_total(a.created_at, b.created_at);
    ordered::lemma_precedes_total(b.created_at, c.created_at);
}

impl Ranked for ManagedImage {
    open spec fn before(a: ManagedImageView, b: ManagedImageView) -> bool {
        image_before(a, b)
    }

    fn ranks_before(&self, other: &Self) -> (r: bool) {
        proof {
            let a = self.deep_view();
            let b = other.deep_view();
            lemma_image_ranks(a, b, b);
            assert forall|c: ManagedImageView|
                !Self::before(a, b) && !(#[trigger] Self::before(b, c)) implies !Self::before(a, c) by {
                lemma_image_ranks(a, b, c);
            }
        }
        if self.repository != other.repository {
            return ordered::comes_before(self.repository.as_str(), other.repository.as_str());
        }
        proof {
            ordered::lemma_precedes_irreflexive(self.repository@);
        }
        if self.created_at != other.created_at {
            return ordered::comes_before(other.created_at.as_str(), self.created_at.as_str());
        }
        proof {
            ordered::lemma_precedes_irreflexive(self.created_at@);
        }
        ordered::comes_before(self.tag.as_str(), other.tag.as_str())
    }
}

/// Services are listed by project, then by name.
pub open spec fn service_before(a: ServiceImageView, b: ServiceImageView) -> bool {
    ||| ordered::precedes(a.project_id, b.project_id)
    ||| a.project_id == b.project_id && ordered::precedes(a.service_id, b.service_id)
    ||| a.project_id == b.project_id && a.service_id == b.service_id && ordered::precedes(
        a.repository,
        b.repository,
    )
}

proof fn lemma_service_ranks(a: ServiceImageView, b: ServiceImageView, c: ServiceImageView)
    ensures
        service_before(a, b) ==> !service_before(b, a),
        !service_before(a, b) && !service_before(b, c) ==> !service_before(a, c),
{
    ordered::lemma_precedes_ranks(a.project_id, b.project_id, c.project_id);
    ordered::lemma_precedes_ranks(b.project_id, a.project_id, a.project_id);
    ordered::lemma_precedes_ranks(a.service_id, b.service_id, c.service_id);
    ordered::lemma_precedes_ranks(b.service_id, a.service_id, a.service_id);
    ordered::lemma_precedes_ranks(a.repository, b.repository, c.repository);
    ordered::lemma_precedes_total(a.project_id, b.project_id);
    ordered::lemma_precedes_total(b.project_id, c.project_id);
    ordered::lemma_precedes_total(a.service_id, b.service_id);
    ordered::lemma_precedes_total(b.service_id, c.service_id);
}

impl Ranked for ServiceImage {
    open spec fn before(a: ServiceImageView, b: ServiceImageView) -> bool {
        service_before(a, b)
    }

    fn ranks_before(&self, other: &Self) -> (r: bool) {
        proof {
            let a = self.deep_view();
            let b = other.deep_view();
            lemma_service_ranks(a, b, b);
            assert forall|c: ServiceImageView|
                !Self::before(a, b) && !(#[trigger] Self::before(b, c)) implies !Self::before(a, c) by {
                lemma_service_ranks(a, b, c);
            }
        }
        if self.project_id != other.project_id {
            return ordered::comes_before(self.project_id.as_str(), other.project_id.as_str());
        }
        proof {
            ordered::lemma_precedes_irreflexive(self.project_id@);
        }
        if self.service_id != other.service_id {
            return ordered::comes_before(self.service_id.as_str(), other.service_id.as_str());
        }
        proof {
            ordered::lemma_precedes_irreflexive(self.service_id@);
        }
        ordered::comes_before(self.repository.as_str(), other.repository.as_str())
    }
}

/// The services that use a repository.
pub open spec fn references(repository: Seq<char>, services: Seq<ServiceImageView>) -> Seq<
    ImageReferenceView,
>
    decreases services.len(),
{
    if services.len() == 0 {
        Seq::empty()
    } else {
        let rest = references(repository, services.drop_last());
        let last = services.last();
        if compose::same_repository(repository, last.repository) {
            rest.push(
                ImageReferenceView { project_id: last.project_id, service_id: last.service_id },
            )
        } else {
            rest
        }
    }
}

/// How often a text stands in a list.
pub open spec fn occurrences(list: Seq<Seq<char>>, item: Seq<char>) -> nat
    decreases list.len(),
{
    if list.len() == 0 {
        0
    } else {
        occurrences(list.drop_last(), item) + if list.last() == item {
            1nat
        } else {
            0
        }
    }
}

/// The number of containers that Docker counts for an image; it may say that it has not counted.
pub open spec fn counted(containers: Seq<char>) -> Result<u64, Seq<char>> {
    if containers == "N/A"@ {
        Ok(0)
    } else {
        match text::number(containers) {
            Some(n) => Ok(n),
            None => Err(outside::number_error(containers)),
        }
    }
}

/// Why an image must stay: for what is recorded of it, and because a container uses it.
pub open spec fn reasons_to_keep(
    id: Seq<char>,
    containers: u64,
    protected: Seq<(Seq<char>, Seq<Seq<char>>)>,
) -> Seq<Seq<char>> {
    let recorded = match ordered::value_of(protected, id) {
        Some(reasons) => reasons,
        None => Seq::empty(),
    };
    if containers > 0 {
        ordered::with_item(recorded, "container"@)
    } else {
        recorded
    }
}

/// The image that a row tells of, where some service uses its repository.
pub open spec fn image_of(
    row: DockerImageRowView,
    services: Seq<ServiceImageView>,
    protected: Seq<(Seq<char>, Seq<Seq<char>>)>,
    used: Seq<Seq<char>>,
) -> Result<Option<ManagedImageView>, Seq<char>> {
    if references(row.repository, services).len() == 0 {
        Ok(None)
    } else {
        match (counted(row.containers), row.size) {
            (Err(error), _) => Err(error),
            (Ok(_), Err(error)) => Err(error),
            (Ok(n), Ok(size_bytes)) => {
                let containers = if occurrences(used, row.id) > n {
                    occurrences(used, row.id) as u64
                } else {
                    n
                };
                let reasons = reasons_to_keep(row.id, containers, protected);
                Ok(
                    Some(
                        ManagedImageView {
                            id: row.id,
                            repository: row.repository,
                            tag: row.tag,
                            digest: if row.digest == "<none>"@ {
                                None
                            } else {
                                Some(row.digest)
                            },
                            size_bytes,
                            created_at: row.created_at,
                            containers,
                            services: references(row.repository, services),
                            protected_reasons: reasons,
                            removable: reasons.len() == 0,
                        },
                    ),
                )
            },
        }
    }
}

/// The images of the repositories that services use, up to the first row that cannot be read.
pub open spec fn images_of(
    rows: Seq<Result<DockerImageRowView, Seq<char>>>,
    services: Seq<ServiceImageView>,
    protected: Seq<(Seq<char>, Seq<Seq<char>>)>,
    used: Seq<Seq<char>>,
) -> Result<Seq<ManagedImageView>, Seq<char>>
    decreases rows.len(),
{
    if rows.len() == 0 {
        Ok(Seq::empty())
    } else {
        match (images_of(rows.drop_last(), services, protected, used), rows.last()) {
            (Err(error), _) => Err(error),
            (Ok(_), Err(error)) => Err(error),
            (Ok(list), Ok(row)) => match image_of(row, services, protected, used) {
                Err(error) => Err(error),
                Ok(None) => Ok(list),
                Ok(Some(image)) => Ok(list.push(image)),
            },
        }
    }
}

/// The images that are shown, in their order.
pub open spec fn managed_images(
    rows: Seq<Result<DockerImageRowView, Seq<char>>>,
    services: Seq<ServiceImageView>,
    protected: Seq<(Seq<char>, Seq<Seq<char>>)>,
    used: Seq<Seq<char>>,
) -> Result<Seq<ManagedImageView>, Seq<char>> {
    match images_of(rows, services, protected, used) {
        Err(error) => Err(error),
        Ok(list) => Ok(ordered::ranked::<ManagedImage>(list)),
    }
}

fn find_references(repository: &str, services: &Vec<ServiceImage>) -> (r: Vec<ImageReference>)
    ensures
        r.deep_view() == references(repository@, services.deep_view()),
{
    let ghost all = services.deep_view();
    let mut out: Vec<ImageReference> = Vec::new();
    let mut i: usize = 0;
    proof {
        assert(out.deep_view() =~= references(repository@, all.take(0)));
    }
    while i < services.len()
        invariant
            i <= services@.len(),
            all == services.deep_view(),
            out.deep_view() == references(repository@, all.take(i as int)),
        decreases services@.len() - i,
    {
        let service = &services[i];
        let ghost before = out.deep_view();
        proof {
            assert(all.take(i + 1).drop_last() =~= all.take(i as int));
            assert(all.take(i + 1).last() == service.deep_view());
        }
        if compose::repositories_match(repository, service.repository.as_str()) {
            out.push(
                ImageReference {
                    project_id: service.project_id.clone(),
                    service_id: service.service_id.clone(),
                },
            );
            proof {
                assert(out.deep_view() =~= before.push(
                    ImageReferenceView {
                        project_id: service.project_id@,
                        service_id: service.service_id@,
                    },
                ));
            }
        }
        i = i + 1;
    }
    proof {
        assert(all.take(i as int) =~= all);
    }
    out
}

fn count(list: &Vec<String>, item: &str) -> (r: usize)
    ensures
        r == occurrences(list.deep_view(), item@),
{
    let ghost all = list.deep_view();
    let mut n: usize = 0;
    let mut i: usize = 0;
    while i < list.len()
        invariant
            i <= list@.len(),
            all == list.deep_view(),
            n <= i,
            n == occurrences(all.take(i as int), item@),
        decreases list@.len() - i,
    {
        proof {
            assert(all.take(i + 1).drop_last() =~= all.take(i as int));
            assert(all.take(i + 1).last() == list@[i as int]@);
        }
        if text::same(list[i].as_str(), item) {
            n = n + 1;
        }
        i = i + 1;
    }
    proof {
        assert(all.take(i as int) =~= all);
    }
    n
}

fn read_image(
    row: &DockerImageRow,
    services: &Vec<ServiceImage>,
    protected: &Vec<(String, Vec<String>)>,
    used: &Vec<String>,
) -> (r: Result<Option<ManagedImage>, String>)
    ensures
        duplicate::outcome(r) == image_of(
            row.deep_view(),
            services.deep_view(),
            protected.deep_view(),
            used.deep_view(),
        ),
{
    let references = find_references(row.repository.as_str(), services);
    if references.len() == 0 {
        return Ok(None);
    }
    let listed: u64 = if text::same(row.containers.as_str(), "N/A") {
        0
    } else {
        match outside::parse_number(row.containers.as_str()) {
            Ok(n) => n,
            Err(error) => {
                return Err(error);
            },
        }
    };
    let size_bytes: u64 = match read_size(&row.size) {
        Ok(n) => n,
        Err(error) => {
            return Err(error);
        },
    };
    let using: u64 = count(used, row.id.as_str()) as u64;
    let containers: u64 = if using > listed {
        using
    } else {
        listed
    };
    let mut reasons: Vec<String> = match ordered::find_value(protected, row.id.as_str()) {
        Some(reasons) => reasons.duplicate(),
        None => {
            let none: Vec<String> = Vec::new();
            proof {
                assert(none.deep_view() =~= Seq::empty());
            }
            none
        },
    };
    if containers > 0 {
        ordered::put_item(&mut reasons, "container".to_owned());
    }
    let digest = if text::same(row.digest.as_str(), "<none>") {
        None
    } else {
        Some(row.digest.clone())
    };
    let removable = reasons.len() == 0;
    proof {
        assert(reasons.deep_view().len() == reasons@.len());
    }
    Ok(
        Some(
            ManagedImage {
                id: row.id.clone(),
                repository: row.repository.clone(),
                tag: row.tag.clone(),
                digest,
                size_bytes,
                created_at: row.created_at.clone(),
                containers,
                services: references,
                protected_reasons: reasons,
                removable,
            },
        ),
    )
}

proof fn lemma_images_error(
    rows: Seq<Result<DockerImageRowView, Seq<char>>>,
    services: Seq<ServiceImageView>,
    protected: Seq<(Seq<char>, Seq<Seq<char>>)>,
    used: Seq<Seq<char>>,
    n: int,
)
    requires
        0 <= n <= rows.len(),
        images_of(rows.take(n), services, protected, used) is Err,
    ensures
        images_of(rows, services, protected, used) == images_of(
            rows.take(n),
            services,
            protected,
            used,
        ),
    decreases rows.len() - n,
{
    if n < rows.len() {
        assert(rows.take(n + 1).drop_last() =~= rows.take(n));
        lemma_images_error(rows, services, protected, used, n + 1);
    } else {
        assert(rows.take(n) =~= rows);
    }
}

/// Reads the rows of `docker image ls`. `protected` lists the reasons that are recorded for
/// keeping an image, and `used` the image of every container.
pub fn parse_images(
    rows: &Vec<Result<DockerImageRow, String>>,
    services: &Vec<ServiceImage>,
    protected: &Vec<(String, Vec<String>)>,
    used: &Vec<String>,
) -> (r: Result<Vec<ManagedImage>, String>)
    ensures
        duplicate::outcome(r) == managed_images(
            read_rows(rows@),
            services.deep_view(),
            protected.deep_view(),
            used.deep_view(),
        ),
        r is Ok ==> ordered::in_order::<ManagedImage>(r->Ok_0.deep_view()),
{
    let ghost all = read_rows(rows@);
    let mut images: Vec<ManagedImage> = Vec::new();
    let mut i: usize = 0;
    proof {
        assert(all.take(0) =~= Seq::empty());
        assert(images.deep_view() =~= Seq::<ManagedImageView>::empty());
    }
    while i < rows.len()
        invariant
            i <= rows@.len(),
            all == read_rows(rows@),
            images_of(
                all.take(i as int),
                services.deep_view(),
                protected.deep_view(),
                used.deep_view(),
            ) == Ok::<_, Seq<char>>(images.deep_view()),
        decreases rows@.len() - i,
    {
        let ghost before = images.deep_view();
        proof {
            assert(all.take(i + 1).drop_last() =~= all.take(i as int));
            assert(all.take(i + 1).last() == duplicate::outcome(rows@[i as int]));
            if images_of(
                all.take(i + 1),
                services.deep_view(),
                protected.deep_view(),
                used.deep_view(),
            ) is Err {
                lemma_images_error(
                    all,
                    services.deep_view(),
                    protected.deep_view(),
                    used.deep_view(),
                    i + 1,
                );
            }
        }
        match &rows[i] {
            Err(error) => {
                return Err(error.clone());
            },
            Ok(row) => match read_image(row, services, protected, used) {
                Err(error) => {
                    return Err(error);
                },
                Ok(None) => {},
                Ok(Some(image)) => {
                    let ghost added = image.deep_view();
                    images.push(image);
                    proof {
                        assert(images.deep_view() =~= before.push(added));
                    }
                },
            },
        }
        i = i + 1;
    }
    proof {
        assert(all.take(i as int) =~= all);
    }
    Ok(ordered::sort(&images))
}

pub(crate) proof fn lemma_occurrences(list: Seq<Seq<char>>, item: Seq<char>)
    ensures
        occurrences(list, item) > 0 <==> list.contains(item),
        occurrences(list, item) <= list.len(),
    decreases list.len(),
{
    if list.len() > 0 {
        let front = list.drop_last();
        lemma_occurrences(front, item);
        assert(list =~= front.push(list.last()));
        assert(list[list.len() - 1] == list.last());
        if front.contains(item) {
            let i = choose|i: int| 0 <= i < front.len() && front[i] == item;
            assert(list[i] == item);
        }
        if list.contains(item) {
            let i = choose|i: int| 0 <= i < list.len() && list[i] == item;
            if i < front.len() {
                assert(front[i] == item);
            }
        }
    }
}

/// An image is removable only if some service uses its repository, no container uses it, running
/// or stopped, and it is neither what a service should run nor what one can go back to.
pub proof fn law_removable_images_are_unused(
    row: DockerImageRowView,
    services: Seq<ServiceImageView>,
    protected: Seq<(Seq<char>, Seq<Seq<char>>)>,
    used: Seq<Seq<char>>,
)
    requires
        image_of(row, services, protected, used) is Ok,
        image_of(row, services, protected, used)->Ok_0 is Some,
        image_of(row, services, protected, used)->Ok_0->0.removable,
        used.len() <= u64::MAX,
    ensures
        references(row.repository, services).len() > 0,
        !used.contains(row.id),
        counted(row.containers) == Ok::<u64, Seq<char>>(0),
        ordered::value_of(protected, row.id) matches Some(reasons) ==> reasons.len() == 0,
{
    lemma_occurrences(used, row.id);
    let n = counted(row.containers)->Ok_0;
    let containers = if occurrences(used, row.id) > n {
        occurrences(used, row.id) as u64
    } else {
        n
    };
    if containers > 0 {
        let recorded = match ordered::value_of(protected, row.id) {
            Some(reasons) => reasons,
            None => Seq::empty(),
        };
        ordered::law_item_is_in_set(recorded, "container"@, "container"@);
    }
}

} // verus!
