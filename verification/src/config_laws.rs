//! Which configurations are usable, and what the name of an image says.
use crate::config::{
    self, ConfigView, ProjectConfigView, ServiceConfigView, VersionSourceConfigView,
};
use crate::text;
use crate::text_laws;
use vstd::prelude::*;

verus! {

/// A tag and a digest do not belong to the name of an image's repository. A colon before the last
/// slash belongs to the registry's port.
pub proof fn law_images_are_named_by_their_repository(
    repository: Seq<char>,
    tag: Seq<char>,
    digest: Seq<char>,
)
    requires
        text_laws::lacks(repository, '@'),
        text_laws::lacks(tag, '@'),
        text_laws::lacks(tag, ':'),
        text_laws::lacks(tag, '/'),
    ensures
        text::rfind(repository, ':') <= text::rfind(repository, '/') ==> config::image_repository(
            repository,
        ) == repository && config::image_repository(repository + seq!['@'] + digest) == repository,
        config::image_repository(repository + seq![':'] + tag) == repository,
        config::image_repository(repository + seq![':'] + tag + seq!['@'] + digest) == repository,
{
    let tagged = repository + seq![':'] + tag;
    text_laws::law_text_is_parted_at_the_first(repository, digest, '@');
    assert(text_laws::lacks(tagged, '@'));
    text_laws::law_text_is_parted_at_the_first(tagged, digest, '@');
    lemma_tagged(repository, tag);
}

proof fn lemma_tagged(repository: Seq<char>, tag: Seq<char>)
    requires
        text_laws::lacks(tag, ':'),
        text_laws::lacks(tag, '/'),
    ensures
        ({
            let tagged = repository + seq![':'] + tag;
            &&& text::rfind(tagged, ':') == repository.len()
            &&& text::rfind(tagged, '/') < repository.len()
            &&& tagged.take(repository.len() as int) == repository
        }),
{
    let tagged = repository + seq![':'] + tag;
    let n = repository.len() as int;
    text::lemma_rfind(tagged, ':');
    text::lemma_rfind(tagged, '/');
    assert(tagged[n] == ':');
    let c = text::rfind(tagged, ':');
    if c > n {
        assert(tagged[c] == tag[c - n - 1]);
    }
    let s = text::rfind(tagged, '/');
    if s > n {
        assert(tagged[s] == tag[s - n - 1]);
    } else if s == n {
        assert(tagged[s] == ':');
    }
    assert(tagged.take(n) =~= repository);
}

/// Whether the first part of an image's name is the address of a registry: `localhost`, or a name
/// with a dot or a port.
pub open spec fn is_address(first: Seq<char>) -> bool {
    ||| first == "localhost"@
    ||| !text_laws::lacks(first, '.')
    ||| !text_laws::lacks(first, ':')
}

/// Whether an address is one of Docker Hub's.
pub open spec fn is_hub(registry: Seq<char>) -> bool {
    registry == "docker.io"@ || registry == "index.docker.io"@ || registry
        == "registry-1.docker.io"@
}

/// The service whose versions come from this place.
pub open spec fn service_from(
    id: Seq<char>,
    repository: Seq<char>,
    source: VersionSourceConfigView,
) -> Result<ServiceConfigView, Seq<char>> {
    Ok(
        ServiceConfigView {
            id,
            image: repository,
            tag_pattern: "^.+$"@,
            version_source: source,
        },
    )
}

/// An image without an address comes from Docker Hub, from the namespace before its first slash, or
/// from `library` where it has none.
pub proof fn law_short_images_come_from_docker_hub(
    id: Seq<char>,
    image: Seq<char>,
    namespace: Seq<char>,
    name: Seq<char>,
)
    requires
        text_laws::lacks(namespace, '/'),
        !is_address(namespace),
    ensures
        config::image_repository(image) == namespace + seq!['/'] + name ==> config::image_service(
            id,
            image,
        ) == (if namespace.len() > 0 && name.len() > 0 {
            service_from(
                id,
                namespace + seq!['/'] + name,
                VersionSourceConfigView::DockerHub { namespace, repository: name },
            )
        } else {
            Err("Docker Hub 镜像路径无效: "@ + (namespace + seq!['/'] + name))
        }),
        config::image_repository(image) == namespace && namespace.len() > 0 ==> config::image_service(id, image)
            == service_from(
            id,
            namespace,
            VersionSourceConfigView::DockerHub { namespace: "library"@, repository: namespace },
        ),
{
    let repository = namespace + seq!['/'] + name;
    text_laws::law_text_is_parted_at_the_first(namespace, name, '/');
    lemma_first(namespace, name);
    lemma_address(namespace);
    reveal_strlit("library");
    assert("library"@.len() == 7);
}

/// An image with the address of a registry comes from that registry, from the path behind the
/// address; one with an address of Docker Hub from there.
pub proof fn law_addressed_images_come_from_their_registry(
    id: Seq<char>,
    image: Seq<char>,
    registry: Seq<char>,
    namespace: Seq<char>,
    name: Seq<char>,
    path: Seq<char>,
)
    requires
        text_laws::lacks(registry, '/'),
        is_address(registry),
        text_laws::lacks(namespace, '/'),
    ensures
        ({
            let full = registry + seq!['/'] + path;
            &&& !is_hub(registry) && config::image_repository(image) == full
                ==> config::image_service(id, image) == service_from(
                id,
                full,
                VersionSourceConfigView::OciRegistry { registry, repository: path },
            )
            &&& is_hub(registry) && path == namespace + seq!['/'] + name
                && config::image_repository(image) == full ==> config::image_service(id, image) == (
            if namespace.len() > 0 && name.len() > 0 {
                service_from(
                    id,
                    full,
                    VersionSourceConfigView::DockerHub { namespace, repository: name },
                )
            } else {
                Err("Docker Hub 镜像路径无效: "@ + path)
            })
            &&& is_hub(registry) && path == namespace && namespace.len() > 0 && config::image_repository(image) == full
                ==> config::image_service(id, image) == service_from(
                id,
                full,
                VersionSourceConfigView::DockerHub { namespace: "library"@, repository: namespace },
            )
            &&& is_hub(registry) && path.len() == 0 && config::image_repository(image) == full
                ==> config::image_service(id, image) == Err::<ServiceConfigView, _>(
                "Docker Hub 镜像路径无效: "@ + path,
            )
            &&& config::image_repository(image) == registry ==> config::image_service(id, image)
                == Err::<ServiceConfigView, _>(
                "服务 "@ + id + " 的 image 缺少 repository: "@ + image,
            )
            &&& config::image_repository(image).len() == 0 ==> config::image_service(id, image)
                == Err::<ServiceConfigView, _>("服务 "@ + id + " 的 image 无效: "@ + image)
        }),
{
    text_laws::law_text_is_parted_at_the_first(registry, path, '/');
    text_laws::law_text_is_parted_at_the_first(namespace, name, '/');
    lemma_first(registry, path);
    lemma_address(registry);
    reveal_strlit("library");
    reveal_strlit("localhost");
    assert("library"@.len() == 7 && "localhost"@.len() == 9);
    assert(registry.len() > 0);
}

proof fn lemma_first(first: Seq<char>, rest: Seq<char>)
    requires
        text_laws::lacks(first, '/'),
    ensures
        ({
            let all = first + seq!['/'] + rest;
            &&& all.take(text::find(all, '/')) == first
            &&& first.take(text::find(first, '/')) == first
        }),
{
    let all = first + seq!['/'] + rest;
    let n = first.len() as int;
    assert(all[n] == '/');
    text::lemma_find_is(all, '/', n);
    text::lemma_find_is(first, '/', n);
    assert(all.take(n) =~= first);
    assert(first.take(n) =~= first);
}

proof fn lemma_address(first: Seq<char>)
    ensures
        config::names_registry(first) == is_address(first),
{
    if !text_laws::lacks(first, '.') {
        let i = choose|i: int| 0 <= i < first.len() && #[trigger] first[i] == '.';
        assert(first.contains('.'));
    }
    if !text_laws::lacks(first, ':') {
        let i = choose|i: int| 0 <= i < first.len() && #[trigger] first[i] == ':';
        assert(first.contains(':'));
    }
}

/// Whether a project can be worked with: it has files, all of them absolute and there, and times
/// above zero.
pub open spec fn is_usable(p: ProjectConfigView, existing: Seq<Seq<char>>) -> bool {
    &&& p.compose_files.len() > 0
    &&& forall|j: int|
        0 <= j < p.compose_files.len() ==> {
            &&& (#[trigger] p.compose_files[j]).len() > 0
            &&& p.compose_files[j][0] == '/'
            &&& existing.contains(p.compose_files[j])
        }
    &&& p.health_timeout_seconds > 0
    &&& p.command_timeout_seconds > 0
}

proof fn lemma_files(files: Seq<Seq<char>>, existing: Seq<Seq<char>>, i: int)
    requires
        0 <= i <= files.len(),
        forall|j: int|
            0 <= j < i ==> (#[trigger] files[j]).len() > 0 && files[j][0] == '/'
                && existing.contains(files[j]),
    ensures
        i == files.len() ==> config::files_error(files, existing) is None,
        i < files.len() && (files[i].len() == 0 || files[i][0] != '/') ==> config::files_error(
            files,
            existing,
        ) == Some("Compose 文件必须使用绝对路径: "@ + files[i]),
        i < files.len() && files[i].len() > 0 && files[i][0] == '/' && !existing.contains(files[i])
            ==> config::files_error(files, existing) == Some("Compose 文件不存在: "@ + files[i]),
    decreases files.len(),
{
    if i > 0 {
        let rest = files.drop_first();
        assert(files[0].len() > 0 && files[0][0] == '/' && existing.contains(files[0]));
        assert forall|j: int| 0 <= j < i - 1 implies (#[trigger] rest[j]).len() > 0 && rest[j][0]
            == '/' && existing.contains(rest[j]) by {
            assert(files[j + 1] == rest[j]);
        }
        lemma_files(rest, existing, i - 1);
    }
}

/// The first file of a project that is not absolute, or not there, is what is said of the project.
pub proof fn law_unusable_files_are_named(
    p: ProjectConfigView,
    existing: Seq<Seq<char>>,
    i: int,
)
    requires
        0 <= i < p.compose_files.len(),
        forall|j: int|
            0 <= j < i ==> (#[trigger] p.compose_files[j]).len() > 0 && p.compose_files[j][0] == '/'
                && existing.contains(p.compose_files[j]),
    ensures
        p.compose_files[i].len() == 0 || p.compose_files[i][0] != '/' ==> config::project_error(
            p,
            existing,
        ) == Some("Compose 文件必须使用绝对路径: "@ + p.compose_files[i]),
        p.compose_files[i].len() > 0 && p.compose_files[i][0] == '/' && !existing.contains(
            p.compose_files[i],
        ) ==> config::project_error(p, existing) == Some(
            "Compose 文件不存在: "@ + p.compose_files[i],
        ),
{
    lemma_files(p.compose_files, existing, i);
}

/// Nothing is said of a project exactly where it is usable. One without files, or with a time of
/// zero, is told so.
pub proof fn law_usable_projects_pass(p: ProjectConfigView, existing: Seq<Seq<char>>)
    ensures
        config::project_error(p, existing) is None <==> is_usable(p, existing),
        p.compose_files.len() == 0 ==> config::project_error(p, existing) == Some(
            "每个 Compose 项目至少需要一个 compose_files 路径"@,
        ),
        (p.health_timeout_seconds == 0 || p.command_timeout_seconds == 0) && is_usable(
            ProjectConfigView { health_timeout_seconds: 1, command_timeout_seconds: 1, ..p },
            existing,
        ) ==> config::project_error(p, existing) == Some("Compose 项目的超时必须大于零"@),
{
    let n = p.compose_files.len() as int;
    if forall|j: int|
        0 <= j < n ==> (#[trigger] p.compose_files[j]).len() > 0 && p.compose_files[j][0] == '/'
            && existing.contains(p.compose_files[j]) {
        lemma_files(p.compose_files, existing, n);
        let q = ProjectConfigView { health_timeout_seconds: 1, command_timeout_seconds: 1, ..p };
        assert(q.compose_files == p.compose_files);
    } else {
        let i = lemma_first_unusable(p.compose_files, existing, 0);
        lemma_files(p.compose_files, existing, i);
        let q = ProjectConfigView { health_timeout_seconds: 1, command_timeout_seconds: 1, ..p };
        assert(q.compose_files[i] == p.compose_files[i]);
    }
}

proof fn lemma_first_unusable(files: Seq<Seq<char>>, existing: Seq<Seq<char>>, from: int) -> (i: int)
    requires
        0 <= from <= files.len(),
        forall|j: int|
            0 <= j < from ==> (#[trigger] files[j]).len() > 0 && files[j][0] == '/'
                && existing.contains(files[j]),
        exists|j: int|
            0 <= j < files.len() && !((#[trigger] files[j]).len() > 0 && files[j][0] == '/'
                && existing.contains(files[j])),
    ensures
        0 <= i < files.len(),
        !(files[i].len() > 0 && files[i][0] == '/' && existing.contains(files[i])),
        forall|j: int|
            0 <= j < i ==> (#[trigger] files[j]).len() > 0 && files[j][0] == '/'
                && existing.contains(files[j]),
    decreases files.len() - from,
{
    if from < files.len() && files[from].len() > 0 && files[from][0] == '/' && existing.contains(
        files[from],
    ) {
        lemma_first_unusable(files, existing, from + 1)
    } else {
        from
    }
}

/// A configuration passes exactly where its limits are above zero and it has projects, all of them
/// usable; and otherwise the first thing that is wrong is what is said.
pub proof fn law_usable_configurations_pass(c: ConfigView, existing: Seq<Seq<char>>)
    ensures
        config::config_error(c, existing) is None <==> c.registries.cache_seconds > 0
            && c.storage.history_limit > 0 && c.storage.max_log_bytes > 0 && c.projects.len() > 0
            && forall|i: int|
            0 <= i < c.projects.len() ==> is_usable(#[trigger] c.projects[i], existing),
        c.registries.cache_seconds == 0 || c.storage.history_limit == 0 || c.storage.max_log_bytes
            == 0 ==> config::config_error(c, existing) == Some("所有缓存和存储限制必须大于零"@),
        c.registries.cache_seconds > 0 && c.storage.history_limit > 0 && c.storage.max_log_bytes > 0
            && c.projects.len() == 0 ==> config::config_error(c, existing) == Some(
            "至少配置一个 Compose 项目"@,
        ),
{
    lemma_projects(c.projects, existing);
}

proof fn lemma_projects(projects: Seq<ProjectConfigView>, existing: Seq<Seq<char>>)
    ensures
        config::projects_error(projects, existing) is None <==> forall|i: int|
            0 <= i < projects.len() ==> is_usable(#[trigger] projects[i], existing),
    decreases projects.len(),
{
    if projects.len() > 0 {
        let rest = projects.drop_first();
        lemma_projects(rest, existing);
        law_usable_projects_pass(projects[0], existing);
        if forall|i: int| 0 <= i < projects.len() ==> is_usable(#[trigger] projects[i], existing) {
            assert(is_usable(projects[0], existing));
            assert forall|i: int| 0 <= i < rest.len() implies is_usable(
                #[trigger] rest[i],
                existing,
            ) by {
                assert(is_usable(projects[i + 1], existing));
            }
        }
        if config::projects_error(projects, existing) is None {
            assert forall|i: int| 0 <= i < projects.len() implies is_usable(
                #[trigger] projects[i],
                existing,
            ) by {
                if i > 0 {
                    assert(is_usable(rest[i - 1], existing));
                }
            }
        }
    }
}

/// Whether a name is one that Compose gives a project: small letters, digits, underscores and
/// hyphens, with a letter or a digit first.
pub open spec fn is_name(name: Seq<char>) -> bool {
    &&& name.len() > 0
    &&& name[0] != '_' && name[0] != '-'
    &&& forall|i: int|
        0 <= i < name.len() ==> 'a' <= #[trigger] name[i] <= 'z' || '0' <= name[i] <= '9' || name[i]
            == '_' || name[i] == '-'
}

/// A resolved project passes exactly where its name is one of Compose's, no project before it has
/// that name, and it has a service.
pub proof fn law_resolved_projects_pass(p: ProjectConfigView, before: Seq<Seq<char>>)
    ensures
        config::is_project_name(p.id) <==> is_name(p.id),
        config::resolved_error(p, before) == (if !is_name(p.id) {
            Some("Compose 解析出的项目名无效: "@ + p.id)
        } else if before.contains(p.id) {
            Some("Compose 项目名重复: "@ + p.id)
        } else if p.services.len() == 0 {
            Some("Compose 项目 "@ + p.id + " 没有可管理的 image 服务"@)
        } else {
            None
        }),
{
    if p.id.len() > 0 {
        if is_name(p.id) {
            assert('a' <= p.id[0] <= 'z' || '0' <= p.id[0] <= '9');
            assert forall|i: int| 0 <= i < p.id.len() implies config::is_name_char(
                #[trigger] p.id[i],
            ) by {}
        }
        if config::is_project_name(p.id) {
            assert forall|i: int| 0 <= i < p.id.len() implies 'a' <= #[trigger] p.id[i] <= 'z'
                || '0' <= p.id[i] <= '9' || p.id[i] == '_' || p.id[i] == '-' by {
                assert(config::is_name_char(p.id[i]));
            }
        }
    }
}

/// The resolved projects pass exactly where each of them does, given the names before it; and
/// otherwise the first that does not is what is said.
pub proof fn law_all_resolved_projects_pass(projects: Seq<ProjectConfigView>, i: int)
    requires
        0 <= i <= projects.len(),
        forall|j: int|
            0 <= j < i ==> config::resolved_error(
                #[trigger] projects[j],
                config::project_ids(projects.take(j)),
            ) is None,
    ensures
        i == projects.len() ==> config::all_resolved_error(projects, 0) is None,
        i < projects.len() && config::resolved_error(
            projects[i],
            config::project_ids(projects.take(i)),
        ) is Some ==> config::all_resolved_error(projects, 0) == config::resolved_error(
            projects[i],
            config::project_ids(projects.take(i)),
        ),
{
    lemma_resolved(projects, 0, i);
}

proof fn lemma_resolved(projects: Seq<ProjectConfigView>, from: int, i: int)
    requires
        0 <= from <= i <= projects.len(),
        forall|j: int|
            from <= j < i ==> config::resolved_error(
                #[trigger] projects[j],
                config::project_ids(projects.take(j)),
            ) is None,
    ensures
        config::all_resolved_error(projects, from) == config::all_resolved_error(projects, i),
    decreases i - from,
{
    if from < i {
        assert(config::resolved_error(
            projects[from],
            config::project_ids(projects.take(from)),
        ) is None);
        lemma_resolved(projects, from + 1, i);
    }
}

/// What is said of a configuration is its error.
pub proof fn law_errors_are_said(message: Seq<char>)
    ensures
        config::checked(None) == Ok::<(), Seq<char>>(()),
        config::checked(Some(message)) == Err::<(), _>(message),
{
}

proof fn lemma_split_append(a: Seq<char>, b: Seq<char>, c: char)
    ensures
        text::split(a + seq![c] + b, c) == text::split(a, c) + text::split(b, c),
    decreases a.len(),
{
    let s = a + seq![c] + b;
    text::lemma_find(a, c);
    let i = text::find(a, c);
    if i < a.len() {
        let first = a.take(i);
        let rest = a.skip(i + 1);
        assert(a =~= first + seq![c] + rest);
        assert(s =~= first + seq![c] + (rest + seq![c] + b));
        assert(text_laws::lacks(first, c));
        text_laws::law_parts_follow_one_another(first, rest, c);
        text_laws::law_parts_follow_one_another(first, rest + seq![c] + b, c);
        lemma_split_append(rest, b, c);
        assert(text::split(s, c) =~= text::split(a, c) + text::split(b, c));
    } else {
        assert(text_laws::lacks(a, c));
        text_laws::law_parts_follow_one_another(a, b, c);
    }
}

/// The parts of a text, joined again, are the text.
pub proof fn law_parts_are_joined_again(s: Seq<char>, c: char)
    ensures
        text::join(text::split(s, c), seq![c]) == s,
    decreases s.len(),
{
    text::lemma_rfind(s, c);
    let i = text::rfind(s, c);
    if i >= 0 {
        let a = s.take(i);
        let b = s.skip(i + 1);
        assert(s =~= a + seq![c] + b);
        assert(text_laws::lacks(b, c));
        lemma_split_append(a, b, c);
        text_laws::law_parts_follow_one_another(b, b, c);
        law_parts_are_joined_again(a, c);
        let parts = text::split(a, c);
        assert(text::split(s, c) =~= parts.push(b));
        assert(parts.len() > 0);
        text_laws::law_joined_parts(parts, b, seq![c]);
    } else {
        assert(text_laws::lacks(s, c));
        text_laws::law_parts_follow_one_another(s, s, c);
    }
}

/// Whether a text is the name of something in a directory.
pub open spec fn is_entry(name: Seq<char>) -> bool {
    name.len() > 0 && text_laws::lacks(name, '/') && name != seq!['.']
}

/// The directory of a file is what stands before the last slash, or the root where that is nothing.
pub proof fn law_directories_stand_before_the_last_slash(
    up: Seq<char>,
    name: Seq<char>,
    file: Seq<char>,
)
    requires
        is_entry(name),
        is_entry(file),
    ensures
        config::parent(up + seq!['/'] + name + seq!['/'] + file) == Some(up + seq!['/'] + name),
        config::parent(seq!['/'] + file) == Some(seq!['/']),
        config::parent(name + seq!['/'] + file) == Some(name),
        config::parent(seq!['/']) is None,
{
    let dir = up + seq!['/'] + name;
    let path = dir + seq!['/'] + file;
    text_laws::law_parts_follow_one_another(file, file, '/');
    text_laws::law_parts_follow_one_another(name, file, '/');
    lemma_split_append(dir, file, '/');
    lemma_split_append(up, name, '/');
    law_parts_are_joined_again(dir, '/');
    let parts = text::split(dir, '/');
    assert(text::split(path, '/') =~= parts.push(file));
    assert(parts =~= text::split(up, '/').push(name));
    assert(parts.push(file).last() == file);
    assert(config::trim_parts(parts.push(file)) == parts.push(file));
    assert(parts.push(file).drop_last() =~= parts);
    assert(parts.last() == name);
    assert(parts.len() >= 2);
    assert(config::trim_parts(parts) == parts);

    let empty = Seq::<char>::empty();
    text_laws::law_parts_follow_one_another(empty, file, '/');
    assert(empty + seq!['/'] + file =~= seq!['/'] + file);
    let root = seq![empty, file];
    assert(text::split(seq!['/'] + file, '/') =~= root);
    assert(root.last() == file);
    assert(config::trim_parts(root) == root);
    assert(root.drop_last() =~= seq![empty]);

    let plain = seq![name, file];
    assert(text::split(name + seq!['/'] + file, '/') =~= plain);
    assert(plain.last() == file);
    assert(config::trim_parts(plain) == plain);
    assert(plain.drop_last() =~= seq![name]);
    assert(text::join(seq![name], seq!['/']) == name);

    text_laws::law_parts_follow_one_another(empty, empty, '/');
    assert(empty + seq!['/'] + empty =~= seq!['/']);
    let top = seq![empty, empty];
    assert(text::split(seq!['/'], '/') =~= top);
    assert(top.drop_last() =~= seq![empty]);
    assert(config::trim_parts(seq![empty]) == seq![empty]);
    assert(config::trim_parts(top) == seq![empty]);
}

/// A project lies in the directory of its first file.
pub proof fn law_projects_lie_beside_their_first_file(
    p: ProjectConfigView,
    up: Seq<char>,
    name: Seq<char>,
    file: Seq<char>,
)
    requires
        is_entry(name),
        is_entry(file),
        p.compose_files.len() > 0,
        p.compose_files[0] == up + seq!['/'] + name + seq!['/'] + file,
    ensures
        p.has_dir(),
        p.dir() == up + seq!['/'] + name,
{
    law_directories_stand_before_the_last_slash(up, name, file);
}

/// The services of a project are found by their names, the first of a name.
pub proof fn law_services_are_found_by_name(p: ProjectConfigView, i: int)
    requires
        0 <= i < p.services.len(),
        forall|j: int| 0 <= j < i ==> (#[trigger] p.services[j]).id != p.services[i].id,
    ensures
        p.service(p.services[i].id) == Some(p.services[i]),
        p.service_ids().len() == p.services.len(),
        p.service_ids()[i] == p.services[i].id,
{
    lemma_first_service(p.services, i);
}

proof fn lemma_first_service(services: Seq<ServiceConfigView>, i: int)
    requires
        0 <= i < services.len(),
        forall|j: int| 0 <= j < i ==> (#[trigger] services[j]).id != services[i].id,
    ensures
        config::find_service(services, services[i].id) == Some(services[i]),
    decreases services.len(),
{
    if i > 0 {
        let rest = services.drop_first();
        assert(services[0].id != services[i].id);
        assert(rest[i - 1] == services[i]);
        assert forall|j: int| 0 <= j < i - 1 implies (#[trigger] rest[j]).id != rest[i - 1].id by {
            assert(services[j + 1].id != services[i].id);
        }
        lemma_first_service(rest, i - 1);
    }
}

/// A slash or a dot behind a path changes nothing of where it lies.
pub proof fn law_slashes_at_the_end_do_not_matter(path: Seq<char>)
    ensures
        config::parent(path + seq!['/']) == config::parent(path),
        config::parent(path + seq!['/', '.']) == config::parent(path),
{
    let empty = Seq::<char>::empty();
    let dot = seq!['.'];
    let parts = text::split(path, '/');
    lemma_split_append(path, empty, '/');
    lemma_split_append(path, dot, '/');
    text_laws::law_parts_follow_one_another(empty, empty, '/');
    text_laws::law_parts_follow_one_another(dot, empty, '/');
    assert(path + seq!['/'] + empty =~= path + seq!['/']);
    assert(path + seq!['/'] + dot =~= path + seq!['/', '.']);
    assert(text::split(path + seq!['/'], '/') =~= parts.push(empty));
    assert(text::split(path + seq!['/', '.'], '/') =~= parts.push(dot));
    assert(parts.len() > 0);
    assert(parts.push(empty).drop_last() =~= parts);
    assert(parts.push(dot).drop_last() =~= parts);
    assert(parts.push(empty).last() == empty);
    assert(parts.push(dot).last() == dot);
}

} // verus!
