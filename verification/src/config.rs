//! The configuration: what it may hold, and what is read from an image name.
use crate::duplicate::{self, Duplicate};
use crate::text;
use vstd::prelude::*;

verus! {

/// The whole configuration.
#[derive(Debug)]
pub struct Config {
    pub server: ServerConfig,
    pub registries: RegistryConfig,
    pub storage: StorageConfig,
    pub projects: Vec<ProjectConfig>,
}

pub struct ConfigView {
    pub server: ServerConfigView,
    pub registries: RegistryConfigView,
    pub storage: StorageConfigView,
    pub projects: Seq<ProjectConfigView>,
}

impl DeepView for Config {
    type V = ConfigView;

    open spec fn deep_view(&self) -> ConfigView {
        ConfigView {
            server: self.server.deep_view(),
            registries: self.registries.deep_view(),
            storage: self.storage.deep_view(),
            projects: self.projects.deep_view(),
        }
    }
}

impl Duplicate for Config {
    fn duplicate(&self) -> (r: Self) {
        Config {
            server: self.server.duplicate(),
            registries: self.registries.duplicate(),
            storage: self.storage.duplicate(),
            projects: self.projects.duplicate(),
        }
    }
}

/// Where the panel listens.
#[derive(Debug)]
pub struct ServerConfig {
    pub listen: String,
}

pub struct ServerConfigView {
    pub listen: Seq<char>,
}

impl DeepView for ServerConfig {
    type V = ServerConfigView;

    open spec fn deep_view(&self) -> ServerConfigView {
        ServerConfigView {
            listen: self.listen.deep_view(),
        }
    }
}

impl Duplicate for ServerConfig {
    fn duplicate(&self) -> (r: Self) {
        ServerConfig {
            listen: self.listen.duplicate(),
        }
    }
}

/// How long versions read from a registry are kept.
#[derive(Debug)]
pub struct RegistryConfig {
    pub cache_seconds: u64,
}

pub struct RegistryConfigView {
    pub cache_seconds: u64,
}

impl DeepView for RegistryConfig {
    type V = RegistryConfigView;

    open spec fn deep_view(&self) -> RegistryConfigView {
        RegistryConfigView {
            cache_seconds: self.cache_seconds,
        }
    }
}

impl Duplicate for RegistryConfig {
    fn duplicate(&self) -> (r: Self) {
        RegistryConfig {
            cache_seconds: self.cache_seconds,
        }
    }
}

/// Where records are kept, and how many of them.
#[derive(Debug)]
pub struct StorageConfig {
    pub data_dir: String,
    pub history_limit: u32,
    pub max_log_bytes: usize,
}

pub struct StorageConfigView {
    pub data_dir: Seq<char>,
    pub history_limit: u32,
    pub max_log_bytes: usize,
}

impl DeepView for StorageConfig {
    type V = StorageConfigView;

    open spec fn deep_view(&self) -> StorageConfigView {
        StorageConfigView {
            data_dir: self.data_dir.deep_view(),
            history_limit: self.history_limit,
            max_log_bytes: self.max_log_bytes,
        }
    }
}

impl Duplicate for StorageConfig {
    fn duplicate(&self) -> (r: Self) {
        StorageConfig {
            data_dir: self.data_dir.duplicate(),
            history_limit: self.history_limit,
            max_log_bytes: self.max_log_bytes,
        }
    }
}

/// A Compose project. Its name and its services come from Compose itself.
#[derive(Debug)]
pub struct ProjectConfig {
    pub compose_files: Vec<String>,
    pub health_timeout_seconds: u64,
    pub command_timeout_seconds: u64,
    pub id: String,
    pub services: Vec<ServiceConfig>,
}

pub struct ProjectConfigView {
    pub compose_files: Seq<Seq<char>>,
    pub health_timeout_seconds: u64,
    pub command_timeout_seconds: u64,
    pub id: Seq<char>,
    pub services: Seq<ServiceConfigView>,
}

impl DeepView for ProjectConfig {
    type V = ProjectConfigView;

    open spec fn deep_view(&self) -> ProjectConfigView {
        ProjectConfigView {
            compose_files: self.compose_files.deep_view(),
            health_timeout_seconds: self.health_timeout_seconds,
            command_timeout_seconds: self.command_timeout_seconds,
            id: self.id.deep_view(),
            services: self.services.deep_view(),
        }
    }
}

impl Duplicate for ProjectConfig {
    fn duplicate(&self) -> (r: Self) {
        ProjectConfig {
            compose_files: self.compose_files.duplicate(),
            health_timeout_seconds: self.health_timeout_seconds,
            command_timeout_seconds: self.command_timeout_seconds,
            id: self.id.duplicate(),
            services: self.services.duplicate(),
        }
    }
}

/// A service of a project, as far as it has an image.
#[derive(Debug)]
pub struct ServiceConfig {
    pub id: String,
    pub image: String,
    pub tag_pattern: String,
    pub version_source: VersionSourceConfig,
}

pub struct ServiceConfigView {
    pub id: Seq<char>,
    pub image: Seq<char>,
    pub tag_pattern: Seq<char>,
    pub version_source: VersionSourceConfigView,
}

impl DeepView for ServiceConfig {
    type V = ServiceConfigView;

    open spec fn deep_view(&self) -> ServiceConfigView {
        ServiceConfigView {
            id: self.id.deep_view(),
            image: self.image.deep_view(),
            tag_pattern: self.tag_pattern.deep_view(),
            version_source: self.version_source.deep_view(),
        }
    }
}

impl Duplicate for ServiceConfig {
    fn duplicate(&self) -> (r: Self) {
        ServiceConfig {
            id: self.id.duplicate(),
            image: self.image.duplicate(),
            tag_pattern: self.tag_pattern.duplicate(),
            version_source: self.version_source.duplicate(),
        }
    }
}

/// Where the versions of an image are listed.
#[derive(Debug)]
pub enum VersionSourceConfig {
    DockerHub { namespace: String, repository: String },
    OciRegistry { registry: String, repository: String },
}

pub enum VersionSourceConfigView {
    DockerHub { namespace: Seq<char>, repository: Seq<char> },
    OciRegistry { registry: Seq<char>, repository: Seq<char> },
}

impl DeepView for VersionSourceConfig {
    type V = VersionSourceConfigView;

    open spec fn deep_view(&self) -> VersionSourceConfigView {
        match self {
            VersionSourceConfig::DockerHub { namespace, repository } =>
                VersionSourceConfigView::DockerHub {
                namespace: namespace@,
                repository: repository@,
            },
            VersionSourceConfig::OciRegistry { registry, repository } =>
                VersionSourceConfigView::OciRegistry {
                registry: registry@,
                repository: repository@,
            },
        }
    }
}

impl Duplicate for VersionSourceConfig {
    fn duplicate(&self) -> (r: Self) {
        match self {
            VersionSourceConfig::DockerHub { namespace, repository } =>
                VersionSourceConfig::DockerHub {
                namespace: namespace.clone(),
                repository: repository.clone(),
            },
            VersionSourceConfig::OciRegistry { registry, repository } =>
                VersionSourceConfig::OciRegistry {
                registry: registry.clone(),
                repository: repository.clone(),
            },
        }
    }
}

impl VersionSourceConfig {
    pub fn kind(&self) -> (r: &'static str)
        ensures
            r@ == (match self {
                VersionSourceConfig::DockerHub { .. } => "docker_hub"@,
                VersionSourceConfig::OciRegistry { .. } => "oci_registry"@,
            }),
    {
        match self {
            VersionSourceConfig::DockerHub { .. } => "docker_hub",
            VersionSourceConfig::OciRegistry { .. } => "oci_registry",
        }
    }
}

impl Default for ServerConfig {
    fn default() -> (r: Self)
        ensures
            r.listen@ == "127.0.0.1:8180"@,
    {
        ServerConfig { listen: "127.0.0.1:8180".to_owned() }
    }
}

impl Default for RegistryConfig {
    fn default() -> (r: Self)
        ensures
            r.cache_seconds == 604800,
    {
        RegistryConfig { cache_seconds: 604800 }
    }
}

impl Default for StorageConfig {
    fn default() -> (r: Self)
        ensures
            r.data_dir@ == "/var/lib/windplume-deploy"@,
            r.history_limit == 500,
            r.max_log_bytes == 65536,
    {
        StorageConfig {
            data_dir: "/var/lib/windplume-deploy".to_owned(),
            history_limit: 500,
            max_log_bytes: 65536,
        }
    }
}

/// How long a service may take to become healthy, in seconds.
pub fn default_health() -> (r: u64)
    ensures
        r == 120,
{
    120
}

/// How long a command may run, in seconds.
pub fn default_command() -> (r: u64)
    ensures
        r == 600,
{
    600
}

/// The tags that a service offers: all of them.
pub fn default_tag_pattern() -> (r: String)
    ensures
        r@ == "^.+$"@,
{
    "^.+$".to_owned()
}

/// What is wrong with a list of Compose files: each has to be named by an absolute path, and has
/// to be there.
pub open spec fn files_error(files: Seq<Seq<char>>, existing: Seq<Seq<char>>) -> Option<Seq<char>>
    decreases files.len(),
{
    if files.len() == 0 {
        None
    } else if !is_absolute(files[0]) {
        Some("Compose 文件必须使用绝对路径: "@ + files[0])
    } else if !existing.contains(files[0]) {
        Some("Compose 文件不存在: "@ + files[0])
    } else {
        files_error(files.drop_first(), existing)
    }
}

pub open spec fn is_absolute(path: Seq<char>) -> bool {
    path.len() > 0 && path[0] == '/'
}

pub open spec fn project_error(p: ProjectConfigView, existing: Seq<Seq<char>>) -> Option<Seq<char>> {
    if p.compose_files.len() == 0 {
        Some("每个 Compose 项目至少需要一个 compose_files 路径"@)
    } else if files_error(p.compose_files, existing) is Some {
        files_error(p.compose_files, existing)
    } else if p.health_timeout_seconds == 0 || p.command_timeout_seconds == 0 {
        Some("Compose 项目的超时必须大于零"@)
    } else {
        None
    }
}

/// What is wrong with the first project that has something wrong with it.
pub open spec fn projects_error(
    projects: Seq<ProjectConfigView>,
    existing: Seq<Seq<char>>,
) -> Option<Seq<char>>
    decreases projects.len(),
{
    if projects.len() == 0 {
        None
    } else if project_error(projects[0], existing) is Some {
        project_error(projects[0], existing)
    } else {
        projects_error(projects.drop_first(), existing)
    }
}

/// What is wrong with a configuration, given the files that are there.
pub open spec fn config_error(c: ConfigView, existing: Seq<Seq<char>>) -> Option<Seq<char>> {
    if c.registries.cache_seconds == 0 || c.storage.history_limit == 0 || c.storage.max_log_bytes
        == 0 {
        Some("所有缓存和存储限制必须大于零"@)
    } else if c.projects.len() == 0 {
        Some("至少配置一个 Compose 项目"@)
    } else {
        projects_error(c.projects, existing)
    }
}

pub open spec fn checked(error: Option<Seq<char>>) -> Result<(), Seq<char>> {
    match error {
        Some(message) => Err(message),
        None => Ok(()),
    }
}

/// The names that Compose accepts for a project.
pub open spec fn is_project_name(name: Seq<char>) -> bool {
    &&& name.len() > 0
    &&& is_name_start(name[0])
    &&& forall|i: int| 0 <= i < name.len() ==> is_name_char(#[trigger] name[i])
}

pub open spec fn is_name_start(c: char) -> bool {
    'a' <= c <= 'z' || '0' <= c <= '9'
}

pub open spec fn is_name_char(c: char) -> bool {
    is_name_start(c) || c == '_' || c == '-'
}

/// What is wrong with a project that Compose has resolved, given the names before it.
pub open spec fn resolved_error(p: ProjectConfigView, before: Seq<Seq<char>>) -> Option<Seq<char>> {
    if !is_project_name(p.id) {
        Some("Compose 解析出的项目名无效: "@ + p.id)
    } else if before.contains(p.id) {
        Some("Compose 项目名重复: "@ + p.id)
    } else if p.services.len() == 0 {
        Some("Compose 项目 "@ + p.id + " 没有可管理的 image 服务"@)
    } else {
        None
    }
}

pub open spec fn project_ids(projects: Seq<ProjectConfigView>) -> Seq<Seq<char>> {
    projects.map_values(|p: ProjectConfigView| p.id)
}

/// What is wrong with the first of the projects from `from` on.
pub open spec fn all_resolved_error(projects: Seq<ProjectConfigView>, from: int) -> Option<Seq<char>>
    decreases projects.len() - from,
{
    if from < 0 || from >= projects.len() {
        None
    } else if resolved_error(projects[from], project_ids(projects.take(from))) is Some {
        resolved_error(projects[from], project_ids(projects.take(from)))
    } else {
        all_resolved_error(projects, from + 1)
    }
}

/// Whether `item` stands in the list.
pub fn lists(list: &Vec<String>, item: &str) -> (r: bool)
    ensures
        r == list.deep_view().contains(item@),
{
    let mut i: usize = 0;
    while i < list.len()
        invariant
            i <= list@.len(),
            forall|j: int| 0 <= j < i ==> #[trigger] list@[j]@ != item@,
        decreases list@.len() - i,
    {
        if text::same(list[i].as_str(), item) {
            proof {
                assert(list.deep_view()[i as int] == item@);
            }
            return true;
        }
        i = i + 1;
    }
    proof {
        assert forall|j: int| 0 <= j < list.deep_view().len() implies list.deep_view()[j]
            != item@ by {
            assert(list@[j]@ != item@);
        }
    }
    false
}

fn absolute(path: &str) -> (r: bool)
    ensures
        r == is_absolute(path@),
{
    let cs = text::chars_of(path);
    cs.len() > 0 && cs[0] == '/'
}

fn check_files(files: &Vec<String>, existing: &Vec<String>) -> (r: Result<(), String>)
    ensures
        duplicate::outcome(r) == checked(files_error(files.deep_view(), existing.deep_view())),
{
    let ghost all = files.deep_view();
    let mut i: usize = 0;
    proof {
        assert(all.skip(0) =~= all);
    }
    while i < files.len()
        invariant
            i <= files@.len(),
            all == files.deep_view(),
            files_error(all.skip(i as int), existing.deep_view()) == files_error(
                all,
                existing.deep_view(),
            ),
        decreases files@.len() - i,
    {
        proof {
            assert(all.skip(i as int)[0] == files@[i as int]@);
            assert(all.skip(i as int).drop_first() =~= all.skip(i + 1));
        }
        if !absolute(files[i].as_str()) {
            return Err(text::joined2("Compose 文件必须使用绝对路径: ", files[i].as_str()));
        }
        if !lists(existing, files[i].as_str()) {
            return Err(text::joined2("Compose 文件不存在: ", files[i].as_str()));
        }
        i = i + 1;
    }
    Ok(())
}

fn check_project(project: &ProjectConfig, existing: &Vec<String>) -> (r: Result<(), String>)
    ensures
        duplicate::outcome(r) == checked(project_error(project.deep_view(), existing.deep_view())),
{
    if project.compose_files.len() == 0 {
        return Err("每个 Compose 项目至少需要一个 compose_files 路径".to_owned());
    }
    match check_files(&project.compose_files, existing) {
        Err(message) => Err(message),
        Ok(()) => {
            if project.health_timeout_seconds == 0 || project.command_timeout_seconds == 0 {
                Err("Compose 项目的超时必须大于零".to_owned())
            } else {
                Ok(())
            }
        },
    }
}

fn valid_project_name(name: &str) -> (r: bool)
    ensures
        r == is_project_name(name@),
{
    let cs = text::chars_of(name);
    if cs.len() == 0 || !name_start(cs[0]) {
        return false;
    }
    let mut i: usize = 0;
    while i < cs.len()
        invariant
            i <= cs@.len(),
            cs@ == name@,
            forall|j: int| 0 <= j < i ==> is_name_char(#[trigger] name@[j]),
        decreases cs@.len() - i,
    {
        let c = cs[i];
        if !(name_start(c) || c == '_' || c == '-') {
            proof {
                assert(!is_name_char(name@[i as int]));
            }
            return false;
        }
        i = i + 1;
    }
    true
}

fn name_start(c: char) -> (r: bool)
    ensures
        r == is_name_start(c),
{
    ('a' <= c && c <= 'z') || ('0' <= c && c <= '9')
}

impl Config {
    /// Checks the configuration. `existing` lists the Compose files that are there.
    pub fn validate(&self, existing: &Vec<String>) -> (r: Result<(), String>)
        ensures
            duplicate::outcome(r) == checked(config_error(self.deep_view(), existing.deep_view())),
    {
        if self.registries.cache_seconds == 0 || self.storage.history_limit == 0
            || self.storage.max_log_bytes == 0 {
            return Err("所有缓存和存储限制必须大于零".to_owned());
        }
        if self.projects.len() == 0 {
            return Err("至少配置一个 Compose 项目".to_owned());
        }
        let ghost all = self.projects.deep_view();
        let mut i: usize = 0;
        proof {
            assert(all.skip(0) =~= all);
        }
        while i < self.projects.len()
            invariant
                i <= self.projects@.len(),
                all == self.projects.deep_view(),
                projects_error(all.skip(i as int), existing.deep_view()) == config_error(
                    self.deep_view(),
                    existing.deep_view(),
                ),
            decreases self.projects@.len() - i,
        {
            proof {
                assert(all.skip(i as int)[0] == self.projects@[i as int].deep_view());
                assert(all.skip(i as int).drop_first() =~= all.skip(i + 1));
            }
            if let Err(message) = check_project(&self.projects[i], existing) {
                return Err(message);
            }
            i = i + 1;
        }
        Ok(())
    }

    /// Checks the names and the services that Compose has given to the projects.
    pub fn validate_resolved(&self) -> (r: Result<(), String>)
        ensures
            duplicate::outcome(r) == checked(all_resolved_error(self.deep_view().projects, 0)),
    {
        let ghost all = self.projects.deep_view();
        let mut ids: Vec<String> = Vec::new();
        let mut i: usize = 0;
        proof {
            assert(ids.deep_view() =~= project_ids(all.take(0)));
        }
        while i < self.projects.len()
            invariant
                i <= self.projects@.len(),
                all == self.projects.deep_view(),
                ids.deep_view() == project_ids(all.take(i as int)),
                all_resolved_error(all, i as int) == all_resolved_error(all, 0),
            decreases self.projects@.len() - i,
        {
            let project = &self.projects[i];
            let id = project.id.as_str();
            proof {
                assert(all[i as int] == project.deep_view());
            }
            if !valid_project_name(id) {
                return Err(text::joined2("Compose 解析出的项目名无效: ", id));
            }
            if lists(&ids, id) {
                return Err(text::joined2("Compose 项目名重复: ", id));
            }
            if project.services.len() == 0 {
                return Err(text::joined3("Compose 项目 ", id, " 没有可管理的 image 服务"));
            }
            let ghost before = ids.deep_view();
            ids.push(project.id.clone());
            proof {
                assert(ids.deep_view() =~= before.push(project.id@));
                assert(project_ids(all.take(i + 1)) =~= project_ids(all.take(i as int)).push(
                    project.id@,
                ));
            }
            i = i + 1;
        }
        Ok(())
    }
}

/// A configuration that passes has limits and timeouts above zero, and every project of it has
/// Compose files, all of them absolute and there.
pub proof fn law_valid_configurations_are_usable(c: ConfigView, existing: Seq<Seq<char>>)
    requires
        config_error(c, existing) is None,
    ensures
        c.registries.cache_seconds > 0,
        c.storage.history_limit > 0,
        c.storage.max_log_bytes > 0,
        c.projects.len() > 0,
        forall|i: int|
            0 <= i < c.projects.len() ==> (#[trigger] c.projects[i]).compose_files.len() > 0
                && c.projects[i].health_timeout_seconds > 0
                && c.projects[i].command_timeout_seconds > 0,
        forall|i: int, j: int|
            0 <= i < c.projects.len() && 0 <= j < c.projects[i].compose_files.len()
                ==> is_absolute(#[trigger] c.projects[i].compose_files[j]) && existing.contains(
                c.projects[i].compose_files[j],
            ),
{
    assert forall|i: int| 0 <= i < c.projects.len() implies project_error(
        #[trigger] c.projects[i],
        existing,
    ) is None by {
        lemma_no_project_error(c.projects, existing, i);
    }
    assert forall|i: int, j: int|
        0 <= i < c.projects.len() && 0 <= j < c.projects[i].compose_files.len() implies is_absolute(
        #[trigger] c.projects[i].compose_files[j],
    ) && existing.contains(c.projects[i].compose_files[j]) by {
        lemma_no_file_error(c.projects[i].compose_files, existing, j);
    }
}

proof fn lemma_no_project_error(
    projects: Seq<ProjectConfigView>,
    existing: Seq<Seq<char>>,
    i: int,
)
    requires
        projects_error(projects, existing) is None,
        0 <= i < projects.len(),
    ensures
        project_error(projects[i], existing) is None,
    decreases projects.len(),
{
    if i > 0 {
        lemma_no_project_error(projects.drop_first(), existing, i - 1);
        assert(projects.drop_first()[i - 1] == projects[i]);
    }
}

proof fn lemma_no_file_error(files: Seq<Seq<char>>, existing: Seq<Seq<char>>, j: int)
    requires
        files_error(files, existing) is None,
        0 <= j < files.len(),
    ensures
        is_absolute(files[j]),
        existing.contains(files[j]),
    decreases files.len(),
{
    if j > 0 {
        lemma_no_file_error(files.drop_first(), existing, j - 1);
        assert(files.drop_first()[j - 1] == files[j]);
    }
}

/// Projects that pass once Compose has resolved them have valid names, no two of them the same,
/// and something to manage.
pub proof fn law_resolved_projects_are_distinct(projects: Seq<ProjectConfigView>)
    requires
        all_resolved_error(projects, 0) is None,
    ensures
        forall|i: int|
            0 <= i < projects.len() ==> is_project_name((#[trigger] projects[i]).id)
                && projects[i].services.len() > 0,
        forall|i: int, j: int|
            0 <= i < j < projects.len() ==> (#[trigger] projects[i]).id != (
            #[trigger] projects[j]).id,
{
    assert forall|i: int| 0 <= i < projects.len() implies resolved_error(
        #[trigger] projects[i],
        project_ids(projects.take(i)),
    ) is None by {
        lemma_no_resolved_error(projects, 0, i);
    }
    assert forall|i: int, j: int| 0 <= i < j < projects.len() implies (#[trigger] projects[i]).id
        != (#[trigger] projects[j]).id by {
        let before = project_ids(projects.take(j));
        assert(before[i] == projects[i].id);
        assert(resolved_error(projects[j], before) is None);
    }
}

proof fn lemma_no_resolved_error(projects: Seq<ProjectConfigView>, from: int, i: int)
    requires
        all_resolved_error(projects, from) is None,
        0 <= from <= i < projects.len(),
    ensures
        resolved_error(projects[i], project_ids(projects.take(i))) is None,
    decreases projects.len() - from,
{
    if i > from {
        lemma_no_resolved_error(projects, from + 1, i);
    }
}

/// The parts of a path without those at its end that name nothing.
pub open spec fn trim_parts(parts: Seq<Seq<char>>) -> Seq<Seq<char>>
    decreases parts.len(),
{
    if parts.len() > 1 && (parts.last().len() == 0 || parts.last() == seq!['.']) {
        trim_parts(parts.drop_last())
    } else {
        parts
    }
}

/// The directory that a path lies in; a root lies in none.
pub open spec fn parent(path: Seq<char>) -> Option<Seq<char>> {
    let parts = trim_parts(text::split(path, '/'));
    if parts.len() == 1 && parts[0].len() == 0 {
        None
    } else {
        let dir = trim_parts(parts.drop_last());
        if dir.len() == 1 && dir[0].len() == 0 {
            Some(seq!['/'])
        } else {
            Some(text::join(dir, seq!['/']))
        }
    }
}

fn trim_part_list(parts: &mut Vec<String>)
    ensures
        final(parts).deep_view() == trim_parts(old(parts).deep_view()),
{
    while parts.len() > 1 && (parts[parts.len() - 1].as_str().unicode_len() == 0 || text::same(
        parts[parts.len() - 1].as_str(),
        ".",
    ))
        invariant
            trim_parts(parts.deep_view()) == trim_parts(old(parts).deep_view()),
        decreases parts@.len(),
    {
        proof {
            reveal_strlit(".");
            assert("."@ =~= seq!['.']);
            assert(parts.deep_view().last() == parts@.last()@);
        }
        let ghost before = parts.deep_view();
        let _ = parts.pop();
        proof {
            assert(parts.deep_view() =~= before.drop_last());
        }
    }
    proof {
        reveal_strlit(".");
        assert("."@ =~= seq!['.']);
        if parts.deep_view().len() > 0 {
            assert(parts.deep_view().last() == parts@.last()@);
        }
    }
}

impl ProjectConfig {
    /// How long a command may run, in seconds.
    pub fn command_timeout(&self) -> (r: u64)
        ensures
            r == self.command_timeout_seconds,
    {
        self.command_timeout_seconds
    }

    /// How long a service may take to become healthy, in seconds.
    pub fn health_timeout(&self) -> (r: u64)
        ensures
            r == self.health_timeout_seconds,
    {
        self.health_timeout_seconds
    }

    /// Whether the project has a first Compose file, and that file lies in a directory.
    pub fn has_project_dir(&self) -> (r: bool)
        ensures
            r == self.deep_view().has_dir(),
    {
        if self.compose_files.len() == 0 {
            return false;
        }
        let mut parts = text::pieces(self.compose_files[0].as_str(), '/');
        trim_part_list(&mut parts);
        proof {
            if parts.deep_view().len() > 0 {
                assert(parts.deep_view()[0] == parts@[0]@);
            }
        }
        !(parts.len() == 1 && parts[0].as_str().unicode_len() == 0)
    }

    /// The directory of the first Compose file.
    pub fn project_dir(&self) -> (r: String)
        requires
            self.deep_view().has_dir(),
        ensures
            r@ == self.deep_view().dir(),
    {
        let mut parts = text::pieces(self.compose_files[0].as_str(), '/');
        trim_part_list(&mut parts);
        let ghost trimmed = parts.deep_view();
        proof {
            lemma_trim_parts(text::split(self.compose_files@[0]@, '/'));
            lemma_split_len(self.compose_files@[0]@, '/');
        }
        let _ = parts.pop();
        proof {
            assert(parts.deep_view() =~= trimmed.drop_last());
        }
        trim_part_list(&mut parts);
        proof {
            reveal_strlit("/");
            assert("/"@ =~= seq!['/']);
            if parts.deep_view().len() > 0 {
                assert(parts.deep_view()[0] == parts@[0]@);
            }
        }
        if parts.len() == 1 && parts[0].as_str().unicode_len() == 0 {
            "/".to_owned()
        } else {
            text::joined(&parts, "/")
        }
    }

    /// The service with this name.
    pub fn service(&self, id: &str) -> (r: Option<ServiceConfig>)
        ensures
            r.deep_view() == self.deep_view().service(id@),
    {
        let ghost all = self.services.deep_view();
        let mut i: usize = 0;
        proof {
            assert(all.skip(0) =~= all);
        }
        while i < self.services.len()
            invariant
                i <= self.services@.len(),
                all == self.services.deep_view(),
                find_service(all.skip(i as int), id@) == find_service(all, id@),
            decreases self.services@.len() - i,
        {
            proof {
                assert(all.skip(i as int)[0] == self.services@[i as int].deep_view());
                assert(all.skip(i as int).drop_first() =~= all.skip(i + 1));
            }
            if text::same(self.services[i].id.as_str(), id) {
                return Some(self.services[i].duplicate());
            }
            i = i + 1;
        }
        None
    }

    /// The names of the services.
    pub fn service_ids(&self) -> (r: Vec<String>)
        ensures
            r.deep_view() == self.deep_view().service_ids(),
    {
        let mut out: Vec<String> = Vec::new();
        let mut i: usize = 0;
        while i < self.services.len()
            invariant
                i <= self.services@.len(),
                out@.len() == i,
                forall|j: int| 0 <= j < i ==> out@[j]@ == self.services@[j].id@,
            decreases self.services@.len() - i,
        {
            out.push(self.services[i].id.clone());
            i = i + 1;
        }
        proof {
            assert(out.deep_view() =~= self.deep_view().service_ids());
        }
        out
    }
}

impl ProjectConfigView {
    /// Whether the project has a first Compose file, and that file lies in a directory.
    pub open spec fn has_dir(self) -> bool {
        self.compose_files.len() > 0 && parent(self.compose_files[0]) is Some
    }

    pub open spec fn dir(self) -> Seq<char> {
        parent(self.compose_files[0]).unwrap()
    }

    pub open spec fn service(self, id: Seq<char>) -> Option<ServiceConfigView> {
        find_service(self.services, id)
    }

    pub open spec fn service_ids(self) -> Seq<Seq<char>> {
        self.services.map_values(|s: ServiceConfigView| s.id)
    }
}

/// The first service with this name.
pub open spec fn find_service(services: Seq<ServiceConfigView>, id: Seq<char>) -> Option<
    ServiceConfigView,
>
    decreases services.len(),
{
    if services.len() == 0 {
        None
    } else if services[0].id == id {
        Some(services[0])
    } else {
        find_service(services.drop_first(), id)
    }
}

proof fn lemma_trim_parts(parts: Seq<Seq<char>>)
    ensures
        parts.len() > 0 ==> trim_parts(parts).len() > 0,
    decreases parts.len(),
{
    if parts.len() > 1 {
        lemma_trim_parts(parts.drop_last());
    }
}

proof fn lemma_split_len(s: Seq<char>, c: char)
    ensures
        text::split(s, c).len() > 0,
{
}

/// An image name without its digest and its tag.
pub open spec fn image_repository(image: Seq<char>) -> Seq<char> {
    let name = match text::split_once(image, '@') {
        Some((before, _)) => before,
        None => image,
    };
    let colon = text::rfind(name, ':');
    if colon > text::rfind(name, '/') {
        name.take(colon)
    } else {
        name
    }
}

/// Whether the first part of an image name names a registry.
pub open spec fn names_registry(first: Seq<char>) -> bool {
    first == "localhost"@ || first.contains('.') || first.contains(':')
}

pub open spec fn is_docker_hub(registry: Seq<char>) -> bool {
    registry == "docker.io"@ || registry == "index.docker.io"@ || registry
        == "registry-1.docker.io"@
}

/// Where Docker Hub lists the tags of a path; one without a namespace is an official image.
pub open spec fn hub_source(path: Seq<char>) -> Result<VersionSourceConfigView, Seq<char>> {
    let (namespace, repository) = match text::split_once(path, '/') {
        Some(parts) => parts,
        None => ("library"@, path),
    };
    if namespace.len() == 0 || repository.len() == 0 {
        Err("Docker Hub 镜像路径无效: "@ + path)
    } else {
        Ok(VersionSourceConfigView::DockerHub { namespace, repository })
    }
}

/// Where the tags of a repository are listed.
pub open spec fn repository_source(
    id: Seq<char>,
    image: Seq<char>,
    repository: Seq<char>,
) -> Result<VersionSourceConfigView, Seq<char>> {
    let first = repository.take(text::find(repository, '/'));
    if repository.len() == 0 {
        Err("服务 "@ + id + " 的 image 无效: "@ + image)
    } else if !names_registry(first) {
        hub_source(repository)
    } else {
        match text::split_once(repository, '/') {
            None => Err("服务 "@ + id + " 的 image 缺少 repository: "@ + image),
            Some((registry, path)) => if is_docker_hub(registry) {
                hub_source(path)
            } else {
                Ok(VersionSourceConfigView::OciRegistry { registry, repository: path })
            },
        }
    }
}

/// The service that runs this image: the image without tag and digest, and where its versions
/// are listed.
pub open spec fn image_service(id: Seq<char>, image: Seq<char>) -> Result<
    ServiceConfigView,
    Seq<char>,
> {
    match repository_source(id, image, image_repository(image)) {
        Err(message) => Err(message),
        Ok(version_source) => Ok(
            ServiceConfigView {
                id,
                image: image_repository(image),
                tag_pattern: "^.+$"@,
                version_source,
            },
        ),
    }
}

fn repository_of(image: &str) -> (r: String)
    ensures
        r@ == image_repository(image@),
{
    let name = match text::cut_once(image, '@') {
        Some((before, _)) => before,
        None => image.to_owned(),
    };
    let cs = text::chars_of(name.as_str());
    let slash = text::rfind_char(&cs, '/');
    match text::rfind_char(&cs, ':') {
        Some(colon) => {
            let tagged = match slash {
                Some(slash) => colon > slash,
                None => true,
            };
            if tagged {
                let r = text::text_of(&cs, 0, colon);
                proof {
                    assert(r@ =~= name@.take(colon as int));
                }
                r
            } else {
                name
            }
        },
        None => {
            proof {
                text::lemma_rfind(name@, '/');
            }
            name
        },
    }
}

fn docker_hub_source(path: &str) -> (r: Result<VersionSourceConfig, String>)
    ensures
        duplicate::outcome(r) == hub_source(path@),
{
    let (namespace, repository) = match text::cut_once(path, '/') {
        Some(parts) => parts,
        None => ("library".to_owned(), path.to_owned()),
    };
    if namespace.as_str().unicode_len() == 0 || repository.as_str().unicode_len() == 0 {
        Err(text::joined2("Docker Hub 镜像路径无效: ", path))
    } else {
        Ok(VersionSourceConfig::DockerHub { namespace, repository })
    }
}

fn service_message(id: &str, problem: &str, image: &str) -> (r: String)
    ensures
        r@ == "服务 "@ + id@ + problem@ + image@,
{
    let mut out = text::joined3("服务 ", id, problem);
    out.append(image);
    out
}

fn source_of(id: &str, image: &str, repository: &str) -> (r: Result<VersionSourceConfig, String>)
    ensures
        duplicate::outcome(r) == repository_source(id@, image@, repository@),
{
    if repository.unicode_len() == 0 {
        return Err(service_message(id, " 的 image 无效: ", image));
    }
    let cs = text::chars_of(repository);
    let slash: usize = text::find_char(&cs, '/', 0);
    let first = text::text_of(&cs, 0, slash);
    proof {
        assert(cs@.skip(0) =~= repository@);
        assert(first@ =~= repository@.take(slash as int));
    }
    if !(text::same(first.as_str(), "localhost") || text::contains_char(first.as_str(), '.')
        || text::contains_char(first.as_str(), ':')) {
        return docker_hub_source(repository);
    }
    match text::cut_once(repository, '/') {
        None => Err(service_message(id, " 的 image 缺少 repository: ", image)),
        Some((registry, path)) => {
            if text::same(registry.as_str(), "docker.io") || text::same(
                registry.as_str(),
                "index.docker.io",
            ) || text::same(registry.as_str(), "registry-1.docker.io") {
                docker_hub_source(path.as_str())
            } else {
                Ok(VersionSourceConfig::OciRegistry { registry, repository: path })
            }
        },
    }
}

/// Reads a service off its image name.
pub fn service_from_image(id: String, image: String) -> (r: Result<ServiceConfig, String>)
    ensures
        duplicate::outcome(r) == image_service(id@, image@),
{
    let repository = repository_of(image.as_str());
    match source_of(id.as_str(), image.as_str(), repository.as_str()) {
        Err(message) => Err(message),
        Ok(version_source) => Ok(
            ServiceConfig {
                id,
                image: repository,
                tag_pattern: default_tag_pattern(),
                version_source,
            },
        ),
    }
}

/// Where two services run images of one repository, tag and digest aside, their versions are
/// listed in the same place.
pub proof fn law_tag_and_digest_do_not_matter(
    a: Seq<char>,
    b: Seq<char>,
    first: Seq<char>,
    second: Seq<char>,
)
    requires
        image_repository(first) == image_repository(second),
        image_service(a, first) is Ok,
    ensures
        image_service(b, second) is Ok,
        image_service(b, second)->Ok_0.image == image_service(a, first)->Ok_0.image,
        image_service(b, second)->Ok_0.version_source == image_service(
            a,
            first,
        )->Ok_0.version_source,
{
}

/// A service's image is never empty and holds no digest.
pub proof fn law_service_image_is_a_repository(id: Seq<char>, image: Seq<char>)
    requires
        image_service(id, image) is Ok,
    ensures
        image_service(id, image)->Ok_0.image.len() > 0,
        !image_service(id, image)->Ok_0.image.contains('@'),
{
    text::lemma_find(image, '@');
    let repository = image_repository(image);
    let name = match text::split_once(image, '@') {
        Some((before, _)) => before,
        None => image,
    };
    text::lemma_rfind(name, ':');
    text::lemma_rfind(name, '/');
    assert forall|i: int| 0 <= i < repository.len() implies repository[i] != '@' by {
        assert(repository[i] == name[i]);
        assert(name[i] == image[i]);
    }
}

} // verus!
