//! What the host's commands print, and what the panel reads from it.
use crate::compose::{self, CommandOutputView};
use crate::ordered;
use crate::outside;
use crate::system::{
    self, DockerDfRowView, DockerImageRowView, DockerResourceUsageView, DockerUsageView,
    ImageReferenceView, ManagedImage, ManagedImageView, ServiceImageView, SpaceUsageView,
};
use crate::text;
use crate::text_laws;
use vstd::prelude::*;

verus! {

/// A command on the host that ends well gives what it printed; one that does not says which program
/// failed and what it printed, without white space around it; one that could not be run, why.
pub proof fn law_host_command_outcomes(program: Seq<char>, log: Seq<char>, error: Seq<char>)
    ensures
        system::host_log(program, Ok(CommandOutputView { success: true, log })) == Ok::<
            _,
            Seq<char>,
        >(log),
        system::host_log(program, Ok(CommandOutputView { success: false, log })) == Err::<
            Seq<char>,
            _,
        >((if program == "df"@ {
            "df 执行失败: "@
        } else {
            "Docker 命令执行失败: "@
        }) + text::trim(log)),
        system::host_log(program, Err(error)) == Err::<Seq<char>, _>(error),
{
}

/// The last line that holds something, behind any others.
proof fn lemma_last_line(before: Seq<char>, rest: Seq<char>)
    requires
        system::last_line(text::lines(rest)) is Some,
    ensures
        system::last_line(text::lines(before + seq!['\n'] + rest)) == system::last_line(
            text::lines(rest),
        ),
    decreases before.len(),
{
    let all = before + seq!['\n'] + rest;
    text::lemma_find(before, '\n');
    let i = text::find(before, '\n');
    if i < before.len() {
        let first = before.take(i);
        let more = before.skip(i + 1);
        assert(before =~= first + seq!['\n'] + more);
        assert(all =~= first + seq!['\n'] + (more + seq!['\n'] + rest));
        assert(text_laws::lacks(first, '\n'));
        lemma_last_line(more, rest);
        lemma_first_line(first, more + seq!['\n'] + rest);
    } else {
        assert(text_laws::lacks(before, '\n'));
        lemma_first_line(before, rest);
    }
}

proof fn lemma_first_line(line: Seq<char>, rest: Seq<char>)
    requires
        text_laws::lacks(line, '\n'),
        system::last_line(text::lines(rest)) is Some,
    ensures
        system::last_line(text::lines(line + seq!['\n'] + rest)) == system::last_line(
            text::lines(rest),
        ),
{
    text_laws::law_lines_follow_one_another(line, rest);
    if line.len() > 0 && line.last() == '\r' {
        lemma_last_line_in(line.drop_last(), text::lines(rest));
    } else {
        lemma_last_line_in(line, text::lines(rest));
    }
}

proof fn lemma_last_line_in(first: Seq<char>, lines: Seq<Seq<char>>)
    requires
        system::last_line(lines) is Some,
    ensures
        system::last_line(seq![first] + lines) == system::last_line(lines),
    decreases lines.len(),
{
    let all = seq![first] + lines;
    assert(all.last() == lines.last());
    assert(all.drop_last() =~= seq![first] + lines.drop_last());
    if text::trim(lines.last()).len() == 0 {
        lemma_last_line_in(first, lines.drop_last());
    }
}

/// Whether a text is one line that holds something.
pub open spec fn is_filled_line(line: Seq<char>) -> bool {
    &&& text_laws::lacks(line, '\n')
    &&& !text_laws::is_blank(line)
    &&& line.last() != '\r'
}

proof fn lemma_only_line(line: Seq<char>, ending: bool)
    requires
        is_filled_line(line),
    ensures
        system::last_line(
            text::lines(
                if ending {
                    line + seq!['\n']
                } else {
                    line
                },
            ),
        ) == Some(line),
{
    text_laws::law_lines_follow_one_another(line, seq![]);
    crate::operation_laws::lemma_blank(line);
    assert(line + seq!['\n'] + seq![] =~= line + seq!['\n']);
    assert(seq![line] + Seq::<Seq<char>>::empty() =~= seq![line]);
    assert(seq![line].last() == line);
}

/// The space of a file system is read from the last line that is printed: its size, what is used
/// and what is available, in bytes, and the used share without its percent sign.
pub proof fn law_disk_space_is_read(
    before: Seq<char>,
    gap: Seq<char>,
    total: u64,
    used: u64,
    available: u64,
    share: Seq<char>,
    ending: bool,
)
    requires
        text_laws::is_blank(gap),
        text_laws::lacks(gap, '\n'),
        share.len() > 0,
        share.last() != '%',
        forall|i: int| 0 <= i < share.len() ==> !text::is_space(#[trigger] share[i]),
    ensures
        ({
            let line = gap + text::decimal(total as nat) + seq![' '] + gap + text::decimal(
                used as nat,
            ) + seq![' '] + gap + text::decimal(available as nat) + seq![' '] + gap + share + seq![
                '%',
            ];
            let printed = before + seq!['\n'] + (if ending {
                line + seq!['\n']
            } else {
                line
            });
            system::disk_usage(printed) == Ok::<_, Seq<char>>(
                (
                    SpaceUsageView {
                        total_bytes: total,
                        used_bytes: used,
                        available_bytes: available,
                    },
                    share,
                ),
            )
        }),
{
    let a = text::decimal(total as nat);
    let b = text::decimal(used as nat);
    let c = text::decimal(available as nat);
    let p = share + seq!['%'];
    lemma_spelled(total);
    lemma_spelled(used);
    lemma_spelled(available);
    assert forall|i: int| 0 <= i < p.len() implies !text::is_space(#[trigger] p[i]) && p[i]
        != '\n' by {
        if i < share.len() {
            assert(p[i] == share[i]);
        }
    }
    let l3 = gap + p;
    let l2 = gap + c + seq![' '] + l3;
    let l1 = gap + b + seq![' '] + l2;
    let line = gap + a + seq![' '] + l1;
    let full = gap + a + seq![' '] + gap + b + seq![' '] + gap + c + seq![' '] + gap + share + seq![
        '%',
    ];
    assert(full =~= line);
    text_laws::law_words_follow_one_another(gap, a, ' ', l1);
    text_laws::law_words_follow_one_another(gap, b, ' ', l2);
    text_laws::law_words_follow_one_another(gap, c, ' ', l3);
    text_laws::law_words_follow_one_another(gap, p, ' ', l3);
    let fields = text::words(line);
    assert(fields =~= seq![a, b, c, p]);
    assert(text_laws::lacks(line, '\n')) by {
        assert forall|i: int| 0 <= i < line.len() implies #[trigger] line[i] != '\n' by {
            lemma_char_of(line, gap, a, l1, i);
            let k = i - gap.len() - a.len() - 1;
            if 0 <= k < l1.len() {
                lemma_char_of(l1, gap, b, l2, k);
                let m = k - gap.len() - b.len() - 1;
                if 0 <= m < l2.len() {
                    lemma_char_of(l2, gap, c, l3, m);
                    let n = m - gap.len() - c.len() - 1;
                    if 0 <= n < l3.len() {
                        if n < gap.len() {
                            assert(l3[n] == gap[n]);
                        } else {
                            assert(l3[n] == p[n - gap.len()]);
                        }
                    }
                }
            }
        }
    }
    assert(line.last() == '%');
    assert(!text_laws::is_blank(line)) by {
        assert(!text::is_space(line[line.len() - 1]));
    }
    lemma_only_line(line, ending);
    lemma_last_line(before, if ending {
        line + seq!['\n']
    } else {
        line
    });
    text_laws::law_spelled_numbers_are_read_back(total);
    text_laws::law_spelled_numbers_are_read_back(used);
    text_laws::law_spelled_numbers_are_read_back(available);
    let three = fields.take(3);
    assert(three =~= seq![a, b, c]);
    assert(three.drop_last() =~= seq![a, b]);
    assert(seq![a, b].drop_last() =~= seq![a]);
    assert(seq![a].drop_last() =~= Seq::<Seq<char>>::empty());
    assert(system::numbers(Seq::<Seq<char>>::empty()) == Ok::<Seq<u64>, Seq<char>>(Seq::empty()));
    assert(system::numbers(seq![a]) == Ok::<Seq<u64>, Seq<char>>(Seq::<u64>::empty().push(total)));
    assert(system::numbers(seq![a, b]) == Ok::<Seq<u64>, Seq<char>>(
        Seq::<u64>::empty().push(total).push(used),
    ));
    let one = Seq::new(1, |i: int| '%');
    assert(p =~= share + one);
    text_laws::law_characters_at_the_end_are_taken_off(share, '%', 1);
}

/// One character of a word, a space and what follows.
proof fn lemma_char_of(line: Seq<char>, gap: Seq<char>, word: Seq<char>, rest: Seq<char>, i: int)
    requires
        line == gap + word + seq![' '] + rest,
        text_laws::lacks(gap, '\n'),
        text_laws::lacks(word, '\n'),
        0 <= i < line.len(),
    ensures
        i < gap.len() + word.len() + 1 ==> line[i] != '\n',
        i >= gap.len() + word.len() + 1 ==> line[i] == rest[i - gap.len() - word.len() - 1],
{
    if i < gap.len() {
        assert(line[i] == gap[i]);
    } else if i < gap.len() + word.len() {
        assert(line[i] == word[i - gap.len()]);
    }
}

proof fn lemma_spelled(n: u64)
    ensures
        text::decimal(n as nat).len() > 0,
        forall|i: int|
            0 <= i < text::decimal(n as nat).len() ==> !text::is_space(
                #[trigger] text::decimal(n as nat)[i],
            ),
        text_laws::lacks(text::decimal(n as nat), '\n'),
{
    text_laws::lemma_decimal(n as nat);
    let s = text::decimal(n as nat);
    assert forall|i: int| 0 <= i < s.len() implies !text::is_space(#[trigger] s[i]) && s[i]
        != '\n' by {
        assert(text::is_digit(s[i]));
    }
}

/// A disk report without a filled line, or whose last one does not have four fields, is no report.
pub proof fn law_disk_reports_have_four_fields(value: Seq<char>, line: Seq<char>, before: Seq<char>)
    requires
        is_filled_line(line),
    ensures
        text_laws::is_blank(value) && text_laws::lacks(value, '\n') ==> system::disk_usage(value)
            == Err::<(SpaceUsageView, Seq<char>), _>("df 未返回磁盘信息"@),
        text::words(line).len() != 4 ==> system::disk_usage(before + seq!['\n'] + line) == Err::<
            (SpaceUsageView, Seq<char>),
            _,
        >("df 返回格式无效"@),
        system::mount_target(before + seq!['\n'] + line) == Ok::<_, Seq<char>>(text::trim(line)),
{
    lemma_only_line(line, false);
    lemma_last_line(before, line);
    if text_laws::is_blank(value) && text_laws::lacks(value, '\n') {
        text_laws::law_lines_follow_one_another(value, seq![]);
        crate::operation_laws::lemma_blank(value);
        if value.len() > 0 {
            assert(seq![value].last() == value);
            assert(seq![value].drop_last() =~= Seq::<Seq<char>>::empty());
            assert(system::last_line(Seq::<Seq<char>>::empty()) is None);
        } else {
            assert(value =~= Seq::<char>::empty());
        }
    }
}

/// A line of the memory report gives what stands behind its first colon, in KiB, under what stands
/// before it. Lines without a colon, or with nothing behind it, are passed over; the last line of a
/// name counts.
pub proof fn law_memory_lines_are_read(
    lines: Seq<Seq<char>>,
    key: Seq<char>,
    gap: Seq<char>,
    n: u64,
    unit: Seq<char>,
    other: Seq<char>,
    plain: Seq<char>,
)
    requires
        text_laws::lacks(key, ':'),
        text_laws::is_blank(gap),
        system::memory_fields(lines) is Ok,
        text_laws::lacks(plain, ':'),
    ensures
        ({
            let before = system::memory_fields(lines)->Ok_0;
            let line = key + seq![':'] + gap + text::decimal(n as nat) + seq![' '] + unit;
            let after = system::memory_fields(lines.push(line));
            &&& after is Ok
            &&& n * 1024 <= u64::MAX ==> ordered::value_of(after->Ok_0, key) == Some(
                (n * 1024) as u64,
            )
            &&& n * 1024 > u64::MAX ==> ordered::value_of(after->Ok_0, key) == Some(u64::MAX)
            &&& other != key ==> ordered::value_of(after->Ok_0, other) == ordered::value_of(
                before,
                other,
            )
            &&& system::memory_fields(lines.push(plain)) == system::memory_fields(lines)
            &&& system::memory_fields(lines.push(key + seq![':'] + gap)) == system::memory_fields(
                lines,
            )
        }),
        system::memory_fields(seq![]) == Ok::<_, Seq<char>>(Seq::<(Seq<char>, u64)>::empty()),
{
    let before = system::memory_fields(lines)->Ok_0;
    let rest = gap + text::decimal(n as nat) + seq![' '] + unit;
    let line = key + seq![':'] + gap + text::decimal(n as nat) + seq![' '] + unit;
    assert(line =~= key + seq![':'] + rest);
    text_laws::law_text_is_parted_at_the_first(key, rest, ':');
    text_laws::law_text_is_parted_at_the_first(key, gap, ':');
    text_laws::law_text_is_parted_at_the_first(plain, gap, ':');
    lemma_spelled(n);
    text_laws::law_words_follow_one_another(gap, text::decimal(n as nat), ' ', unit);
    text_laws::law_spelled_numbers_are_read_back(n);
    assert(text::words(rest)[0] == text::decimal(n as nat));
    assert(lines.push(line).drop_last() =~= lines);
    assert(lines.push(plain).drop_last() =~= lines);
    assert(lines.push(key + seq![':'] + gap).drop_last() =~= lines);
    ordered::law_entry_is_found(before, key, system::kibibytes(n), other);
}

/// What is used of a memory is what is not available of its total; where nothing is said of what is
/// available, that is nothing.
pub proof fn law_memory_is_exact(
    fields: Seq<(Seq<char>, u64)>,
    total: Seq<char>,
    available: Seq<char>,
)
    ensures
        match (ordered::value_of(fields, total), ordered::value_of(fields, available)) {
            (None, _) => system::memory_usage(fields, total, available) == Err::<
                SpaceUsageView,
                _,
            >("/proc/meminfo 缺少 "@ + total),
            (Some(all), None) => system::memory_usage(fields, total, available) == Ok::<
                _,
                Seq<char>,
            >(SpaceUsageView { total_bytes: all, used_bytes: all, available_bytes: 0 }),
            (Some(all), Some(free)) => {
                let usage = system::memory_usage(fields, total, available);
                &&& usage is Ok
                &&& usage->Ok_0.total_bytes == all
                &&& usage->Ok_0.available_bytes == free
                &&& free <= all ==> usage->Ok_0.used_bytes == all - free
                &&& free > all ==> usage->Ok_0.used_bytes == 0
            },
        },
{
}

/// The memory is read from the fields `MemTotal` and `MemAvailable`, and the swap space from
/// `SwapTotal` and `SwapFree`.
pub proof fn law_memory_and_swap_have_their_fields(value: Seq<char>)
    ensures
        match system::memory_fields(text::lines(value)) {
            Err(error) => system::memory_and_swap(value) == Err::<
                (SpaceUsageView, SpaceUsageView),
                _,
            >(error),
            Ok(fields) => {
                let memory = system::memory_usage(fields, "MemTotal"@, "MemAvailable"@);
                let swap = system::memory_usage(fields, "SwapTotal"@, "SwapFree"@);
                &&& memory is Ok && swap is Ok ==> system::memory_and_swap(value) == Ok::<
                    _,
                    Seq<char>,
                >((memory->Ok_0, swap->Ok_0))
                &&& memory is Err ==> system::memory_and_swap(value) == Err::<
                    (SpaceUsageView, SpaceUsageView),
                    _,
                >(memory->Err_0)
                &&& memory is Ok && swap is Err ==> system::memory_and_swap(value) == Err::<
                    (SpaceUsageView, SpaceUsageView),
                    _,
                >(swap->Err_0)
            },
        },
{
}

/// A size is a run of digits and points and what follows it.
pub proof fn law_sizes_are_taken_apart(number: Seq<char>, unit: Seq<char>)
    requires
        forall|i: int|
            0 <= i < number.len() ==> '0' <= #[trigger] number[i] <= '9' || number[i] == '.',
        unit.len() > 0 ==> !('0' <= unit[0] <= '9') && unit[0] != '.',
    ensures
        system::number_len(number + unit) == number.len(),
        (number + unit).take(system::number_len(number + unit)) == number,
        (number + unit).skip(system::number_len(number + unit)) == unit,
    decreases number.len(),
{
    let all = number + unit;
    if number.len() > 0 {
        let rest = number.drop_first();
        assert(all[0] == number[0]);
        assert(all.drop_first() =~= rest + unit);
        assert forall|i: int| 0 <= i < rest.len() implies '0' <= #[trigger] rest[i] <= '9'
            || rest[i] == '.' by {
            assert(rest[i] == number[i + 1]);
        }
        law_sizes_are_taken_apart(rest, unit);
    } else {
        assert(all =~= unit);
    }
    assert(all.take(number.len() as int) =~= number);
    assert(all.skip(number.len() as int) =~= unit);
}

/// The units of sizes: powers of a thousand, and with an `i` of 1024.
pub proof fn law_units_of_sizes(unit: Seq<char>)
    ensures
        system::unit_bytes(seq![]) == Some(1u64),
        system::unit_bytes("B"@) == Some(1u64),
        system::unit_bytes("kB"@) == Some(1_000u64),
        system::unit_bytes("KB"@) == Some(1_000u64),
        system::unit_bytes("MB"@) == Some(1_000_000u64),
        system::unit_bytes("GB"@) == Some(1_000_000_000u64),
        system::unit_bytes("TB"@) == Some(1_000_000_000_000u64),
        system::unit_bytes("KiB"@) == Some(1024u64),
        system::unit_bytes("MiB"@) == Some(1_048_576u64),
        system::unit_bytes("GiB"@) == Some(1_073_741_824u64),
        system::unit_bytes("TiB"@) == Some(1_099_511_627_776u64),
        system::unit_bytes(unit) is Some ==> unit.len() == 0 || unit == "B"@ || unit == "kB"@ || unit
            == "KB"@ || unit == "MB"@ || unit == "GB"@ || unit == "TB"@ || unit == "KiB"@ || unit
            == "MiB"@ || unit == "GiB"@ || unit == "TiB"@,
{
    reveal_strlit("B");
    reveal_strlit("kB");
    reveal_strlit("KB");
    reveal_strlit("MB");
    reveal_strlit("GB");
    reveal_strlit("TB");
    reveal_strlit("KiB");
    reveal_strlit("MiB");
    reveal_strlit("GiB");
    reveal_strlit("TiB");
    assert("B"@.len() == 1);
    assert("kB"@.len() == 2 && "kB"@[0] == 'k');
    assert("KB"@.len() == 2 && "KB"@[0] == 'K');
    assert("MB"@.len() == 2 && "MB"@[0] == 'M');
    assert("GB"@.len() == 2 && "GB"@[0] == 'G');
    assert("TB"@.len() == 2 && "TB"@[0] == 'T');
    assert("KiB"@.len() == 3 && "KiB"@[0] == 'K');
    assert("MiB"@.len() == 3 && "MiB"@[0] == 'M');
    assert("GiB"@.len() == 3 && "GiB"@[0] == 'G');
    assert("TiB"@.len() == 3 && "TiB"@[0] == 'T');
}

/// What Docker uses is read row by row: each row under its kind, the last of a kind counts, other
/// kinds are passed over, and a row that cannot be read is an error.
pub proof fn law_docker_usage_is_read(
    rows: Seq<Result<DockerDfRowView, Seq<char>>>,
    row: DockerDfRowView,
    total: u64,
    active: u64,
    size: u64,
    reclaimable: u64,
    error: Seq<char>,
)
    requires
        system::docker_usage_of(rows) is Ok,
        row.total == text::decimal(total as nat),
        row.active == text::decimal(active as nat),
        row.size == Ok::<u64, Seq<char>>(size),
        row.reclaimable == Ok::<u64, Seq<char>>(reclaimable),
    ensures
        ({
            let before = system::docker_usage_of(rows)->Ok_0;
            let after = system::docker_usage_of(rows.push(Ok(row)));
            let read = DockerResourceUsageView {
                total,
                active,
                size_bytes: size,
                reclaimable_bytes: reclaimable,
            };
            &&& row.kind == "Images"@ ==> after == Ok::<_, Seq<char>>(
                DockerUsageView { images: read, ..before },
            )
            &&& row.kind == "Containers"@ ==> after == Ok::<_, Seq<char>>(
                DockerUsageView { containers: read, ..before },
            )
            &&& row.kind == "Local Volumes"@ ==> after == Ok::<_, Seq<char>>(
                DockerUsageView { local_volumes: read, ..before },
            )
            &&& row.kind == "Build Cache"@ ==> after == Ok::<_, Seq<char>>(
                DockerUsageView { build_cache: read, ..before },
            )
            &&& row.kind != "Images"@ && row.kind != "Containers"@ && row.kind != "Local Volumes"@
                && row.kind != "Build Cache"@ ==> after == Ok::<_, Seq<char>>(before)
            &&& system::docker_usage_of(rows.push(Err(error))) == Err::<DockerUsageView, _>(error)
        }),
{
    text_laws::law_spelled_numbers_are_read_back(total);
    text_laws::law_spelled_numbers_are_read_back(active);
    assert(rows.push(Ok(row)).drop_last() =~= rows);
    assert(rows.push(Err(error)).drop_last() =~= rows);
    reveal_strlit("Images");
    reveal_strlit("Containers");
    reveal_strlit("Local Volumes");
    reveal_strlit("Build Cache");
    assert("Images"@.len() == 6 && "Containers"@.len() == 10 && "Local Volumes"@.len() == 13
        && "Build Cache"@.len() == 11);
}

/// Before any row is read, Docker uses nothing; and one row that cannot be read stops all.
pub proof fn law_docker_usage_begins_with_nothing(
    rows: Seq<Result<DockerDfRowView, Seq<char>>>,
    row: Result<DockerDfRowView, Seq<char>>,
    error: Seq<char>,
)
    ensures
        ({
            let nothing = DockerResourceUsageView {
                total: 0,
                active: 0,
                size_bytes: 0,
                reclaimable_bytes: 0,
            };
            system::docker_usage_of(seq![]) == Ok::<_, Seq<char>>(
                DockerUsageView {
                    images: nothing,
                    containers: nothing,
                    local_volumes: nothing,
                    build_cache: nothing,
                },
            )
        }),
        system::docker_usage_of(rows) == Err::<DockerUsageView, _>(error) ==> system::docker_usage_of(
            rows.push(row),
        ) == Err::<DockerUsageView, _>(error),
{
    assert(rows.push(row).drop_last() =~= rows);
}

/// A row of which a number or a size cannot be read says so, the first of them.
pub proof fn law_unreadable_rows_are_errors(row: DockerDfRowView)
    ensures
        match system::resource_of(row) {
            Ok(read) => {
                &&& text::number(row.total) == Some(read.total)
                &&& text::number(row.active) == Some(read.active)
                &&& row.size == Ok::<u64, Seq<char>>(read.size_bytes)
                &&& row.reclaimable == Ok::<u64, Seq<char>>(read.reclaimable_bytes)
            },
            Err(error) => if text::number(row.total) is None {
                error == outside::number_error(row.total)
            } else if text::number(row.active) is None {
                error == outside::number_error(row.active)
            } else if row.size is Err {
                row.size == Err::<u64, _>(error)
            } else {
                row.reclaimable == Err::<u64, _>(error)
            },
        },
{
}

/// An image belongs to the services whose repository is its own, and to no others.
pub proof fn law_images_belong_to_their_services(
    repository: Seq<char>,
    services: Seq<ServiceImageView>,
    reference: ImageReferenceView,
)
    ensures
        system::references(repository, services).contains(reference) <==> exists|i: int|
            0 <= i < services.len() && (#[trigger] services[i]).project_id == reference.project_id
                && services[i].service_id == reference.service_id && compose::same_repository(
                repository,
                services[i].repository,
            ),
    decreases services.len(),
{
    let all = system::references(repository, services);
    if services.len() > 0 {
        let front = services.drop_last();
        let last = services.last();
        let rest = system::references(repository, front);
        law_images_belong_to_their_services(repository, front, reference);
        if rest.contains(reference) {
            let k = choose|k: int| 0 <= k < rest.len() && rest[k] == reference;
            assert(all[k] == reference);
            let i = choose|i: int|
                0 <= i < front.len() && (#[trigger] front[i]).project_id == reference.project_id
                    && front[i].service_id == reference.service_id && compose::same_repository(
                    repository,
                    front[i].repository,
                );
            assert(services[i] == front[i]);
        }
        assert(services[services.len() - 1] == last);
        if compose::same_repository(repository, last.repository) {
            assert(all.last() == (ImageReferenceView {
                project_id: last.project_id,
                service_id: last.service_id,
            }));
        }
        if all.contains(reference) && !rest.contains(reference) {
            let k = choose|k: int| 0 <= k < all.len() && all[k] == reference;
            if k < rest.len() {
                assert(rest[k] == reference);
            }
        }
        if exists|i: int|
            0 <= i < services.len() && (#[trigger] services[i]).project_id == reference.project_id
                && services[i].service_id == reference.service_id && compose::same_repository(
                repository,
                services[i].repository,
            ) {
            let i = choose|i: int|
                0 <= i < services.len() && (#[trigger] services[i]).project_id
                    == reference.project_id && services[i].service_id == reference.service_id
                    && compose::same_repository(repository, services[i].repository);
            if i < front.len() {
                assert(front[i] == services[i]);
            }
        }
    }
}

/// An image of no service is not shown. Another one is shown with what Docker says of it. It is
/// removable exactly where Docker counts no container of it, none of the containers that are there
/// uses it, and there is no recorded reason to keep it.
pub proof fn law_images_are_shown_as_they_are(
    row: DockerImageRowView,
    services: Seq<ServiceImageView>,
    protected: Seq<(Seq<char>, Seq<Seq<char>>)>,
    used: Seq<Seq<char>>,
    size: u64,
    counted: u64,
    reason: Seq<char>,
)
    requires
        row.size == Ok::<u64, Seq<char>>(size),
        row.containers == text::decimal(counted as nat) || row.containers == "N/A"@ && counted == 0,
        used.len() <= u64::MAX,
    ensures
        ({
            let shown = system::image_of(row, services, protected, used);
            let none = forall|i: int|
                0 <= i < services.len() ==> !compose::same_repository(
                    row.repository,
                    (#[trigger] services[i]).repository,
                );
            &&& shown is Ok
            &&& shown->Ok_0 is None <==> none
            &&& !none ==> {
                let image = shown->Ok_0->0;
                &&& image.id == row.id
                &&& image.repository == row.repository
                &&& image.tag == row.tag
                &&& image.digest == (if row.digest == "<none>"@ {
                    None
                } else {
                    Some(row.digest)
                })
                &&& image.size_bytes == size
                &&& image.created_at == row.created_at
                &&& image.services == system::references(row.repository, services)
                &&& image.containers == (if system::occurrences(used, row.id) > counted {
                    system::occurrences(used, row.id)
                } else {
                    counted as nat
                })
                &&& image.containers > 0 <==> counted > 0 || used.contains(row.id)
                &&& image.removable <==> counted == 0 && !used.contains(row.id)
                    && match ordered::value_of(protected, row.id) {
                    Some(reasons) => reasons.len() == 0,
                    None => true,
                }
                &&& image.removable <==> image.protected_reasons.len() == 0
                &&& image.protected_reasons.contains(reason) <==> reason == "container"@ && (counted
                    > 0 || used.contains(row.id)) || match ordered::value_of(protected, row.id) {
                    Some(reasons) => reasons.contains(reason),
                    None => false,
                }
            }
        }),
{
    reveal_strlit("N/A");
    text_laws::law_spelled_numbers_are_read_back(counted);
    text_laws::lemma_decimal(counted as nat);
    if row.containers == text::decimal(counted as nat) {
        assert(text::is_digit(row.containers[0]));
        assert("N/A"@[0] == 'N');
        assert(row.containers != "N/A"@);
    }
    system::lemma_occurrences(used, row.id);
    lemma_no_references(row.repository, services);
    let recorded = match ordered::value_of(protected, row.id) {
        Some(reasons) => reasons,
        None => Seq::empty(),
    };
    ordered::law_item_is_in_set(recorded, "container"@, "container"@);
    ordered::law_item_is_in_set(recorded, "container"@, reason);
    let kept = ordered::with_item(recorded, "container"@);
    assert(kept.len() > 0) by {
        let k = choose|k: int| 0 <= k < kept.len() && kept[k] == "container"@;
        assert(0 <= k < kept.len());
    }
}

/// Each use of an image is counted, and nothing else.
pub proof fn law_uses_are_counted(list: Seq<Seq<char>>, item: Seq<char>, more: Seq<char>)
    ensures
        system::occurrences(seq![], item) == 0,
        system::occurrences(list.push(item), item) == system::occurrences(list, item) + 1,
        more != item ==> system::occurrences(list.push(more), item) == system::occurrences(
            list,
            item,
        ),
{
    assert(list.push(item).drop_last() =~= list);
    assert(list.push(more).drop_last() =~= list);
}

proof fn lemma_no_references(repository: Seq<char>, services: Seq<ServiceImageView>)
    ensures
        system::references(repository, services).len() == 0 <==> forall|i: int|
            0 <= i < services.len() ==> !compose::same_repository(
                repository,
                (#[trigger] services[i]).repository,
            ),
    decreases services.len(),
{
    if services.len() > 0 {
        let front = services.drop_last();
        lemma_no_references(repository, front);
        assert(services[services.len() - 1] == services.last());
        if system::references(repository, services).len() == 0 {
            assert forall|i: int| 0 <= i < services.len() implies !compose::same_repository(
                repository,
                (#[trigger] services[i]).repository,
            ) by {
                if i < front.len() {
                    assert(front[i] == services[i]);
                }
            }
        }
        if forall|i: int|
            0 <= i < services.len() ==> !compose::same_repository(
                repository,
                (#[trigger] services[i]).repository,
            ) {
            assert forall|i: int| 0 <= i < front.len() implies !compose::same_repository(
                repository,
                (#[trigger] front[i]).repository,
            ) by {
                assert(front[i] == services[i]);
            }
            assert(!compose::same_repository(
                repository,
                services[services.len() - 1].repository,
            ));
        }
    }
}

/// The images are listed one for each row that is of a service, and a row that cannot be read stops
/// all of them.
pub proof fn law_image_rows_are_read(
    rows: Seq<Result<DockerImageRowView, Seq<char>>>,
    row: DockerImageRowView,
    services: Seq<ServiceImageView>,
    protected: Seq<(Seq<char>, Seq<Seq<char>>)>,
    used: Seq<Seq<char>>,
    error: Seq<char>,
)
    ensures
        ({
            let before = system::images_of(rows, services, protected, used);
            let after = system::images_of(rows.push(Ok(row)), services, protected, used);
            let broken = system::images_of(rows.push(Err(error)), services, protected, used);
            &&& before is Err ==> after == before && broken == before
            &&& before is Ok ==> broken == Err::<Seq<ManagedImageView>, _>(error)
            &&& before is Ok ==> match system::image_of(row, services, protected, used) {
                Ok(Some(image)) => after == Ok::<_, Seq<char>>(before->Ok_0.push(image)),
                Ok(None) => after == before,
                Err(error) => after == Err::<Seq<ManagedImageView>, _>(error),
            }
        }),
        system::images_of(seq![], services, protected, used) == Ok::<_, Seq<char>>(
            Seq::<ManagedImageView>::empty(),
        ),
{
    assert(rows.push(Ok(row)).drop_last() =~= rows);
    assert(rows.push(Err(error)).drop_last() =~= rows);
}

/// The images are shown by repository, within a repository the newest first, and of the same age by
/// tag; all of them, and no others.
pub proof fn law_images_are_in_order(
    rows: Seq<Result<DockerImageRowView, Seq<char>>>,
    services: Seq<ServiceImageView>,
    protected: Seq<(Seq<char>, Seq<Seq<char>>)>,
    used: Seq<Seq<char>>,
    i: int,
    j: int,
    image: ManagedImageView,
)
    requires
        system::managed_images(rows, services, protected, used) is Ok,
        0 <= i < j < system::managed_images(rows, services, protected, used)->Ok_0.len(),
    ensures
        ({
            let list = system::managed_images(rows, services, protected, used)->Ok_0;
            let a = list[i];
            let b = list[j];
            &&& !ordered::precedes(b.repository, a.repository)
            &&& a.repository == b.repository ==> !ordered::precedes(a.created_at, b.created_at)
            &&& a.repository == b.repository && a.created_at == b.created_at ==> !ordered::precedes(
                b.tag,
                a.tag,
            )
            &&& list.contains(image) <==> system::images_of(
                rows,
                services,
                protected,
                used,
            )->Ok_0.contains(image)
        }),
{
    broadcast use vstd::seq_lib::group_to_multiset_ensures;

    let found = system::images_of(rows, services, protected, used)->Ok_0;
    let list = system::managed_images(rows, services, protected, used)->Ok_0;
    let first = |a: ManagedImageView, b: ManagedImageView| system::image_before(a, b);
    assert forall|a: ManagedImageView, b: ManagedImageView| #[trigger] first(
        a,
        b,
    ) implies <ManagedImage as ordered::Ranked>::before(a, b)
        && !<ManagedImage as ordered::Ranked>::before(b, a) by {
        system::lemma_image_ranks(a, b, b);
    }
    assert forall|a: ManagedImageView, b: ManagedImageView, c: ManagedImageView|
        !(#[trigger] first(b, a)) && !(#[trigger] first(c, b)) implies !first(c, a) by {
        system::lemma_image_ranks(c, b, a);
    }
    ordered::law_ranked_respects_coarser_orders::<ManagedImage>(found, first);
    assert(!first(list[j], list[i]));
    ordered::law_ranked_is_sorted::<ManagedImage>(found);
    assert(list.to_multiset().count(image) == found.to_multiset().count(image));
}

/// A number of containers that Docker does not count is none.
pub proof fn law_containers_are_counted(n: u64, s: Seq<char>)
    ensures
        system::counted("N/A"@) == Ok::<u64, Seq<char>>(0),
        system::counted(text::decimal(n as nat)) == Ok::<u64, Seq<char>>(n),
        s != "N/A"@ && text::number(s) is None ==> system::counted(s) == Err::<u64, _>(
            outside::number_error(s),
        ),
{
    reveal_strlit("N/A");
    text_laws::law_spelled_numbers_are_read_back(n);
    text_laws::lemma_decimal(n as nat);
    let d = text::decimal(n as nat);
    assert(text::is_digit(d[0]));
    assert("N/A"@[0] == 'N');
    assert(d != "N/A"@);
}

/// Services are ordered by project, then by name, then by repository.
pub proof fn law_services_are_in_order(a: ServiceImageView, b: ServiceImageView)
    ensures
        ({
            let first = system::service_before(a, b);
            &&& a.project_id != b.project_id ==> first == ordered::precedes(
                a.project_id,
                b.project_id,
            )
            &&& a.project_id == b.project_id && a.service_id != b.service_id ==> first
                == ordered::precedes(a.service_id, b.service_id)
            &&& a.project_id == b.project_id && a.service_id == b.service_id ==> first
                == ordered::precedes(a.repository, b.repository)
        }),
{
    ordered::lemma_precedes_irreflexive(a.project_id);
    ordered::lemma_precedes_irreflexive(a.service_id);
}

/// A row of an image of some service whose size or whose containers cannot be read is an error.
pub proof fn law_unreadable_images_are_errors(
    row: DockerImageRowView,
    services: Seq<ServiceImageView>,
    protected: Seq<(Seq<char>, Seq<Seq<char>>)>,
    used: Seq<Seq<char>>,
    i: int,
    error: Seq<char>,
)
    requires
        0 <= i < services.len(),
        compose::same_repository(row.repository, services[i].repository),
    ensures
        row.containers != "N/A"@ && text::number(row.containers) is None ==> system::image_of(
            row,
            services,
            protected,
            used,
        ) == Err::<Option<ManagedImageView>, _>(outside::number_error(row.containers)),
        (row.containers == "N/A"@ || text::number(row.containers) is Some) && row.size == Err::<
            u64,
            _,
        >(error) ==> system::image_of(row, services, protected, used) == Err::<
            Option<ManagedImageView>,
            _,
        >(error),
{
    lemma_no_references(row.repository, services);
}

/// A disk report whose numbers cannot be read says which, the first of them; and so does a memory
/// report.
pub proof fn law_unreadable_reports_are_errors(
    before: Seq<char>,
    line: Seq<char>,
    a: Seq<char>,
    b: Seq<char>,
    c: Seq<char>,
    p: Seq<char>,
    lines: Seq<Seq<char>>,
    key: Seq<char>,
    rest: Seq<char>,
    more: Seq<char>,
)
    requires
        is_filled_line(line),
        text::words(line) == seq![a, b, c, p],
        text_laws::lacks(key, ':'),
    ensures
        ({
            let read = system::disk_usage(before + seq!['\n'] + line);
            let failed = |word: Seq<char>|
                read == Err::<(SpaceUsageView, Seq<char>), _>(outside::number_error(word));
            if text::number(a) is None {
                failed(a)
            } else if text::number(b) is None {
                failed(b)
            } else if text::number(c) is None {
                failed(c)
            } else {
                read is Ok
            }
        }),
        system::memory_fields(lines) is Ok && text::words(rest).len() > 0 && text::number(
            text::words(rest)[0],
        ) is None ==> system::memory_fields(lines.push(key + seq![':'] + rest)) == Err::<
            Seq<(Seq<char>, u64)>,
            _,
        >(outside::number_error(text::words(rest)[0])),
        system::memory_fields(lines) is Err ==> system::memory_fields(lines.push(more))
            == system::memory_fields(lines),
{
    lemma_only_line(line, false);
    lemma_last_line(before, line);
    let fields = text::words(line);
    let three = fields.take(3);
    assert(three =~= seq![a, b, c]);
    assert(three.drop_last() =~= seq![a, b]);
    assert(seq![a, b].drop_last() =~= seq![a]);
    assert(seq![a].drop_last() =~= Seq::<Seq<char>>::empty());
    assert(system::numbers(Seq::<Seq<char>>::empty()) == Ok::<Seq<u64>, Seq<char>>(Seq::empty()));
    assert(system::numbers(seq![a]) is Ok <==> text::number(a) is Some);
    assert(system::numbers(seq![a, b]) is Ok <==> text::number(a) is Some && text::number(
        b,
    ) is Some);
    text_laws::law_text_is_parted_at_the_first(key, rest, ':');
    assert(lines.push(key + seq![':'] + rest).drop_last() =~= lines);
    assert(lines.push(more).drop_last() =~= lines);
}

} // verus!
