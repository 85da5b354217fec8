//! Disks: what was read and written, and the space of mounted filesystems.

use crate::list::{kept, lemma_kept_next, lemma_kept_none};
use crate::number::{
    add_wrapped, count_or_zero, decimal, lemma_decimal_is_a_word, lemma_wrapped_sum, mul_wrapped,
    parse_count, wrapped,
};
use crate::order::{
    arranged, law_arranged_is_sorted, lemma_text_total, lemma_text_transitive, sort, text_at_most,
    text_le, Ranked,
};
use crate::snapshot::{Filesystem, FilesystemView};
use crate::text::{
    begins, characters, complete, cut_at, equals, is_named, join_texts, law_a_word_reads_back,
    law_one_line_more, law_words_read_back, lemma_occurrence, lemma_spaced_is_one_line, lines,
    named, owned, spaced, split_once_at, starts_with, text_lines, text_words, texts, views,
    whitespace, wordlike, words,
};
use vstd::prelude::*;
use vstd::slice::slice_subrange;

verus! {

/// A disk's counters.
#[verifier::ext_equal]
pub struct DiskView {
    /// The device number, major and minor.
    pub device: Seq<char>,
    pub sectors_read: u64,
    pub sectors_written: u64,
}

/// What a line of the kernel's `diskstats` says, if it is of full length and not
/// about a loop device or a RAM disk.
pub open spec fn disk_of(line: Seq<char>) -> Option<DiskView> {
    let fields = text_words(line);
    if fields.len() < 14 || begins(fields[2], "loop"@) || begins(fields[2], "ram"@) {
        None
    } else {
        Some(
            DiskView {
                device: fields[0].push(':') + fields[1],
                sectors_read: count_or_zero(fields[5]),
                sectors_written: count_or_zero(fields[9]),
            },
        )
    }
}

struct Disk {
    device: String,
    sectors_read: u64,
    sectors_written: u64,
}

spec fn optional_disk(disk: Option<Disk>) -> Option<DiskView> {
    match disk {
        Some(disk) => Some(
            DiskView {
                device: disk.device@,
                sectors_read: disk.sectors_read,
                sectors_written: disk.sectors_written,
            },
        ),
        None => None,
    }
}

fn parse_disk(line: &[char]) -> (r: Option<Disk>)
    ensures
        optional_disk(r) == disk_of(line@),
{
    let fields: Vec<&[char]> = words(line);
    let ghost seen = texts(fields@);
    if fields.len() < 14 {
        return None;
    }
    assert(seen[0] == fields@[0]@ && seen[1] == fields@[1]@ && seen[2] == fields@[2]@);
    assert(seen[5] == fields@[5]@ && seen[9] == fields@[9]@);
    if starts_with(fields[2], "loop") || starts_with(fields[2], "ram") {
        return None;
    }
    let mut device: String = owned(fields[0]);
    device.push(':');
    Some(
        Disk {
            device: join_texts(device.as_str(), owned(fields[1]).as_str()),
            sectors_read: parse_count(fields[5]),
            sectors_written: parse_count(fields[9]),
        },
    )
}

/// The device numbers of the disks that count, in the order of the lines.
pub open spec fn devices_on(lines: Seq<Seq<char>>) -> Seq<Seq<char>> {
    kept(
        lines,
        |line: Seq<char>|
            match disk_of(line) {
                Some(disk) => Some(disk.device),
                None => None,
            },
    )
}

/// The device numbers of the disks that count, in the order of the lines.
pub fn disk_devices(input: &str) -> (r: Vec<String>)
    ensures
        views(r@) == devices_on(text_lines(input@)),
{
    let chars: Vec<char> = characters(input);
    let all: Vec<&[char]> = lines(chars.as_slice());
    let ghost seen = texts(all@);
    let ghost f = |line: Seq<char>|
        match disk_of(line) {
            Some(disk) => Some(disk.device),
            None => None,
        };
    let mut r: Vec<String> = Vec::new();
    let mut i: usize = 0;
    proof {
        lemma_kept_none(seen, f);
        assert(views(r@) =~= Seq::<Seq<char>>::empty());
    }
    while i < all.len()
        invariant
            i <= all@.len(),
            seen == texts(all@),
            f == |line: Seq<char>|
                match disk_of(line) {
                    Some(disk) => Some(disk.device),
                    None => None,
                },
            views(r@) == kept(seen.take(i as int), f),
        decreases all@.len() - i,
    {
        let ghost before = views(r@);
        proof {
            lemma_kept_next(seen, f, i as int);
            assert(seen[i as int] == all@[i as int]@);
        }
        if let Some(disk) = parse_disk(all[i]) {
            r.push(disk.device);
            assert(views(r@) =~= before.push(disk.device@));
        }
        i += 1;
    }
    r
}

/// The bytes in a sector, as the kernel counts them.
pub const SECTOR_BYTES: u64 = 512;

/// The bytes that the disks on some lines have read. A disk that is a partition
/// of another does not count.
pub open spec fn bytes_read(lines: Seq<Seq<char>>, partitions: Seq<String>) -> nat
    decreases lines.len(),
{
    if lines.len() == 0 {
        0
    } else {
        let before = bytes_read(lines.drop_last(), partitions);
        match disk_of(lines.last()) {
            Some(disk) => if named(partitions, disk.device) {
                before
            } else {
                before + disk.sectors_read as nat * 512
            },
            None => before,
        }
    }
}

/// The bytes that the disks on some lines have written. A disk that is a
/// partition of another does not count.
pub open spec fn bytes_written(lines: Seq<Seq<char>>, partitions: Seq<String>) -> nat
    decreases lines.len(),
{
    if lines.len() == 0 {
        0
    } else {
        let before = bytes_written(lines.drop_last(), partitions);
        match disk_of(lines.last()) {
            Some(disk) => if named(partitions, disk.device) {
                before
            } else {
                before + disk.sectors_written as nat * 512
            },
            None => before,
        }
    }
}

proof fn lemma_wrapped_step(before: nat, sectors: u64)
    ensures
        wrapped(wrapped(before) as nat + wrapped(sectors as nat * 512) as nat) == wrapped(
            before + sectors as nat * 512,
        ),
{
    lemma_wrapped_sum(before, sectors as nat * 512);
}

/// The bytes that the disks have read and written. `partitions` holds the device
/// numbers of those that are parts of another disk, which counts them already.
pub fn parse_diskstats(input: &str, partitions: &Vec<String>) -> (r: (u64, u64))
    ensures
        r.0 == wrapped(bytes_read(text_lines(input@), partitions@)),
        r.1 == wrapped(bytes_written(text_lines(input@), partitions@)),
{
    let chars: Vec<char> = characters(input);
    let all: Vec<&[char]> = lines(chars.as_slice());
    let ghost seen = texts(all@);
    let mut read: u64 = 0;
    let mut written: u64 = 0;
    let mut i: usize = 0;
    while i < all.len()
        invariant
            i <= all@.len(),
            seen == texts(all@),
            read == wrapped(bytes_read(seen.take(i as int), partitions@)),
            written == wrapped(bytes_written(seen.take(i as int), partitions@)),
        decreases all@.len() - i,
    {
        assert(seen.take(i + 1).drop_last() =~= seen.take(i as int));
        assert(seen.take(i + 1).last() == all@[i as int]@);
        if let Some(disk) = parse_disk(all[i]) {
            if !is_named(partitions, disk.device.as_str()) {
                proof {
                    lemma_wrapped_step(
                        bytes_read(seen.take(i as int), partitions@),
                        disk.sectors_read,
                    );
                    lemma_wrapped_step(
                        bytes_written(seen.take(i as int), partitions@),
                        disk.sectors_written,
                    );
                }
                read = add_wrapped(read, mul_wrapped(disk.sectors_read, SECTOR_BYTES));
                written = add_wrapped(written, mul_wrapped(disk.sectors_written, SECTOR_BYTES));
            }
        }
        i += 1;
    }
    assert(seen.take(i as int) =~= seen);
    (read, written)
}

/// The character that an escape of the kernel's stands for, by its three digits.
pub open spec fn escape_at(s: Seq<char>) -> Option<char> {
    if s.len() < 4 {
        None
    } else if begins(s, "\\040"@) {
        Some(' ')
    } else if begins(s, "\\011"@) {
        Some('\t')
    } else if begins(s, "\\012"@) {
        Some('\n')
    } else if begins(s, "\\134"@) {
        Some('\\')
    } else {
        None
    }
}

/// A field of the kernel's mount table as it was before the kernel escaped
/// blanks and backslashes in it.
pub open spec fn decoded(s: Seq<char>) -> Seq<char>
    decreases s.len(),
{
    if s.len() == 0 {
        Seq::empty()
    } else {
        match escape_at(s) {
            Some(c) => seq![c] + decoded(s.skip(4)),
            None => seq![s[0]] + decoded(s.skip(1)),
        }
    }
}

/// What the kernel writes for a character in its mount table.
pub open spec fn encoded_char(c: char) -> Seq<char> {
    if c == ' ' {
        "\\040"@
    } else if c == '\t' {
        "\\011"@
    } else if c == '\n' {
        "\\012"@
    } else if c == '\\' {
        "\\134"@
    } else {
        seq![c]
    }
}

/// What the kernel writes for a text in its mount table.
pub open spec fn encoded(s: Seq<char>) -> Seq<char>
    decreases s.len(),
{
    if s.len() == 0 {
        Seq::empty()
    } else {
        encoded_char(s[0]) + encoded(s.skip(1))
    }
}

proof fn lemma_literals()
    ensures
        "\\040"@ == seq!['\\', '0', '4', '0'],
        "\\011"@ == seq!['\\', '0', '1', '1'],
        "\\012"@ == seq!['\\', '0', '1', '2'],
        "\\134"@ == seq!['\\', '1', '3', '4'],
{
    reveal_strlit("\\040");
    reveal_strlit("\\011");
    reveal_strlit("\\012");
    reveal_strlit("\\134");
    assert("\\040"@ =~= seq!['\\', '0', '4', '0']);
    assert("\\011"@ =~= seq!['\\', '0', '1', '1']);
    assert("\\012"@ =~= seq!['\\', '0', '1', '2']);
    assert("\\134"@ =~= seq!['\\', '1', '3', '4']);
}

/// What the kernel escaped is read back as it was.
pub proof fn law_mount_field_reads_back(s: Seq<char>)
    ensures
        decoded(encoded(s)) == s,
    decreases s.len(),
{
    if s.len() > 0 {
        law_mount_field_reads_back(s.skip(1));
        lemma_literals();
        let first = encoded_char(s[0]);
        let rest = encoded(s.skip(1));
        let e = encoded(s);
        assert(s =~= seq![s[0]] + s.skip(1));
        if first.len() == 4 {
            assert(e.take(4) =~= first);
            assert(e.skip(4) =~= rest);
            let head = e.take(4);
            assert(head[1] == e[1] && head[2] == e[2] && head[3] == e[3]);
            assert(begins(e, first));
            assert(first[1] == e[1] && first[2] == e[2] && first[3] == e[3]);
            assert(escape_at(e) == Some(s[0]));
        } else {
            assert(e.skip(1) =~= rest);
            assert(e[0] != '\\');
            assert(escape_at(e) is None) by {
                if escape_at(e) is Some {
                    assert(e.take(4)[0] == e[0]);
                }
            }
        }
    }
}

fn decode(s: &[char]) -> (r: String)
    ensures
        r@ == decoded(s@),
{
    let mut r: String = String::new();
    let mut i: usize = 0;
    assert(s@.skip(0) =~= s@);
    assert(r@ + decoded(s@.skip(0)) =~= decoded(s@));
    while i < s.len()
        invariant
            i <= s@.len(),
            r@ + decoded(s@.skip(i as int)) == decoded(s@),
        decreases s@.len() - i,
    {
        let rest = slice_subrange(s, i, s.len());
        let ghost before = r@;
        proof {
            lemma_literals();
            assert(rest@ =~= s@.skip(i as int));
        }
        let escape: Option<char> = if starts_with(rest, "\\040") {
            Some(' ')
        } else if starts_with(rest, "\\011") {
            Some('\t')
        } else if starts_with(rest, "\\012") {
            Some('\n')
        } else if starts_with(rest, "\\134") {
            Some('\\')
        } else {
            None
        };
        match escape {
            Some(c) => {
                r.push(c);
                assert(rest@.len() >= 4);
                assert(rest@.skip(4) =~= s@.skip(i + 4));
                assert(r@ + decoded(s@.skip(i + 4)) =~= before + decoded(rest@));
                i += 4;
            },
            None => {
                r.push(s[i]);
                assert(rest@.skip(1) =~= s@.skip(i + 1));
                assert(r@ + decoded(s@.skip(i + 1)) =~= before + decoded(rest@));
                i += 1;
            },
        }
    }
    assert(r@ =~= r@ + decoded(s@.skip(i as int)));
    r
}

/// Decodes a field of the kernel's mount table.
pub fn decode_mount_field(value: &str) -> (r: String)
    ensures
        r@ == decoded(value@),
{
    let chars: Vec<char> = characters(value);
    decode(chars.as_slice())
}

/// Whether a filesystem of the given type holds no files of its own on a disk.
pub open spec fn pseudo_filesystem(kind: Seq<char>) -> bool {
    ||| kind == "autofs"@
    ||| kind == "binfmt_misc"@
    ||| kind == "bpf"@
    ||| kind == "cgroup"@
    ||| kind == "cgroup2"@
    ||| kind == "configfs"@
    ||| kind == "debugfs"@
    ||| kind == "devpts"@
    ||| kind == "devtmpfs"@
    ||| kind == "efivarfs"@
    ||| kind == "fusectl"@
    ||| kind == "hugetlbfs"@
    ||| kind == "mqueue"@
    ||| kind == "proc"@
    ||| kind == "pstore"@
    ||| kind == "securityfs"@
    ||| kind == "sysfs"@
    ||| kind == "tmpfs"@
    ||| kind == "tracefs"@
}

fn is_pseudo(kind: &[char]) -> (r: bool)
    ensures
        r == pseudo_filesystem(kind@),
{
    equals(kind, "autofs") || equals(kind, "binfmt_misc") || equals(kind, "bpf") || equals(
        kind,
        "cgroup",
    ) || equals(kind, "cgroup2") || equals(kind, "configfs") || equals(kind, "debugfs") || equals(
        kind,
        "devpts",
    ) || equals(kind, "devtmpfs") || equals(kind, "efivarfs") || equals(kind, "fusectl") || equals(
        kind,
        "hugetlbfs",
    ) || equals(kind, "mqueue") || equals(kind, "proc") || equals(kind, "pstore") || equals(
        kind,
        "securityfs",
    ) || equals(kind, "sysfs") || equals(kind, "tmpfs") || equals(kind, "tracefs")
}

/// Whether a filesystem of the given type holds no files of its own on a disk.
pub fn is_pseudo_filesystem(filesystem_type: &str) -> (r: bool)
    ensures
        r == pseudo_filesystem(filesystem_type@),
{
    let chars: Vec<char> = characters(filesystem_type);
    is_pseudo(chars.as_slice())
}

/// A line of the mount table.
#[verifier::ext_equal]
pub struct MountView {
    pub device: Seq<char>,
    pub mountpoint: Seq<char>,
    pub filesystem_type: Seq<char>,
}

/// What a line of the kernel's `mountinfo` says. Its halves are parted by a
/// hyphen; a line that is too short, and one of a pseudo filesystem, says nothing.
pub open spec fn mount_of(line: Seq<char>) -> Option<MountView> {
    match cut_at(line, " - "@) {
        Some((mount, filesystem)) => {
            let mount_fields = text_words(mount);
            let filesystem_fields = text_words(filesystem);
            if mount_fields.len() < 5 || filesystem_fields.len() < 2 || pseudo_filesystem(
                filesystem_fields[0],
            ) {
                None
            } else {
                Some(
                    MountView {
                        device: decoded(filesystem_fields[1]),
                        mountpoint: decoded(mount_fields[4]),
                        filesystem_type: filesystem_fields[0],
                    },
                )
            }
        },
        None => None,
    }
}

struct Mount {
    device: String,
    mountpoint: String,
    filesystem_type: String,
}

spec fn optional_mount(mount: Option<Mount>) -> Option<MountView> {
    match mount {
        Some(mount) => Some(
            MountView {
                device: mount.device@,
                mountpoint: mount.mountpoint@,
                filesystem_type: mount.filesystem_type@,
            },
        ),
        None => None,
    }
}

fn parse_mount(line: &[char]) -> (r: Option<Mount>)
    ensures
        optional_mount(r) == mount_of(line@),
{
    match split_once_at(line, " - ") {
        Some((mount, filesystem)) => {
            let mount_fields: Vec<&[char]> = words(mount);
            let filesystem_fields: Vec<&[char]> = words(filesystem);
            let ghost a = texts(mount_fields@);
            let ghost b = texts(filesystem_fields@);
            if mount_fields.len() < 5 || filesystem_fields.len() < 2 {
                return None;
            }
            assert(a[4] == mount_fields@[4]@);
            assert(b[0] == filesystem_fields@[0]@ && b[1] == filesystem_fields@[1]@);
            if is_pseudo(filesystem_fields[0]) {
                return None;
            }
            Some(
                Mount {
                    device: decode(filesystem_fields[1]),
                    mountpoint: decode(mount_fields[4]),
                    filesystem_type: owned(filesystem_fields[0]),
                },
            )
        },
        None => None,
    }
}

/// What the system says of the space below a mount point, in blocks.
pub struct Space {
    pub mountpoint: String,
    pub block_size: u64,
    pub blocks: u64,
    pub available_blocks: u64,
}

/// A product, or the largest number where it is larger.
pub open spec fn saturated(a: u64, b: u64) -> u64 {
    if a * b > u64::MAX {
        u64::MAX
    } else {
        (a * b) as u64
    }
}

fn mul_saturated(a: u64, b: u64) -> (r: u64)
    ensures
        r == saturated(a, b),
{
    match a.checked_mul(b) {
        Some(product) => product,
        None => u64::MAX,
    }
}

/// The size and the available space below a mount point, in bytes, at or after
/// position `from` of what the system said.
pub open spec fn space_from(spaces: Seq<Space>, mountpoint: Seq<char>, from: int) -> Option<
    (u64, u64),
>
    decreases spaces.len() - from,
{
    if from < 0 || from >= spaces.len() {
        None
    } else if spaces[from].mountpoint@ == mountpoint {
        Some(
            (
                saturated(spaces[from].blocks, spaces[from].block_size),
                saturated(spaces[from].available_blocks, spaces[from].block_size),
            ),
        )
    } else {
        space_from(spaces, mountpoint, from + 1)
    }
}

/// The size and the available space below a mount point, in bytes.
pub open spec fn space_of(spaces: Seq<Space>, mountpoint: Seq<char>) -> Option<(u64, u64)> {
    space_from(spaces, mountpoint, 0)
}

/// The size and the available space below a mount point, in bytes.
pub fn filesystem_space(spaces: &Vec<Space>, mountpoint: &str) -> (r: Option<(u64, u64)>)
    ensures
        r == space_of(spaces@, mountpoint@),
{
    let mut i: usize = 0;
    while i < spaces.len()
        invariant
            i <= spaces@.len(),
            space_of(spaces@, mountpoint@) == space_from(spaces@, mountpoint@, i as int),
        decreases spaces@.len() - i,
    {
        let space: &Space = &spaces[i];
        if equals(characters(space.mountpoint.as_str()).as_slice(), mountpoint) {
            return Some(
                (
                    mul_saturated(space.blocks, space.block_size),
                    mul_saturated(space.available_blocks, space.block_size),
                ),
            );
        }
        i += 1;
    }
    None
}

/// Filesystems are ordered by mount point.
impl Ranked for Filesystem {
    open spec fn le(a: FilesystemView, b: FilesystemView) -> bool {
        text_le(a.mountpoint, b.mountpoint)
    }

    fn at_most(&self, other: &Self) -> (r: bool) {
        text_at_most(self.mountpoint.as_str(), other.mountpoint.as_str())
    }

    proof fn total(a: FilesystemView, b: FilesystemView) {
        lemma_text_total(a.mountpoint, b.mountpoint, 0);
    }

    proof fn transitive(a: FilesystemView, b: FilesystemView, c: FilesystemView) {
        lemma_text_transitive(a.mountpoint, b.mountpoint, c.mountpoint, 0);
    }
}

/// Whether one of the filesystems is mounted at the given point.
pub open spec fn mounted_at(filesystems: Seq<FilesystemView>, mountpoint: Seq<char>) -> bool {
    exists|k: int|
        0 <= k < filesystems.len() && (#[trigger] filesystems[k]).mountpoint == mountpoint
}

/// The filesystems on some lines, in the order of the lines. Of those at one
/// mount point the first with a known space counts.
pub open spec fn filesystems_on(lines: Seq<Seq<char>>, spaces: Seq<Space>) -> Seq<FilesystemView>
    decreases lines.len(),
{
    if lines.len() == 0 {
        Seq::empty()
    } else {
        let before = filesystems_on(lines.drop_last(), spaces);
        match mount_of(lines.last()) {
            Some(mount) => if mounted_at(before, mount.mountpoint) {
                before
            } else {
                match space_of(spaces, mount.mountpoint) {
                    Some((size_bytes, available_bytes)) => before.push(
                        FilesystemView {
                            device: mount.device,
                            mountpoint: mount.mountpoint,
                            filesystem_type: mount.filesystem_type,
                            size_bytes,
                            available_bytes,
                        },
                    ),
                    None => before,
                }
            },
            None => before,
        }
    }
}

fn is_mounted_at(filesystems: &Vec<Filesystem>, mountpoint: &str) -> (r: bool)
    ensures
        r == mounted_at(views(filesystems@), mountpoint@),
{
    let ghost seen = views(filesystems@);
    let mut k: usize = 0;
    while k < filesystems.len()
        invariant
            k <= filesystems@.len(),
            seen == views(filesystems@),
            forall|j: int| 0 <= j < k ==> (#[trigger] seen[j]).mountpoint != mountpoint@,
        decreases filesystems@.len() - k,
    {
        assert(seen[k as int] == filesystems@[k as int]@);
        if equals(characters(filesystems[k].mountpoint.as_str()).as_slice(), mountpoint) {
            return true;
        }
        k += 1;
    }
    false
}

/// Reads the mounted filesystems from the kernel's `mountinfo`, sorted by mount
/// point, with the space that the system says they have.
pub fn parse_mountinfo(input: &str, spaces: &Vec<Space>) -> (r: Vec<Filesystem>)
    ensures
        views(r@) == arranged::<Filesystem>(filesystems_on(text_lines(input@), spaces@)),
{
    let chars: Vec<char> = characters(input);
    let all: Vec<&[char]> = lines(chars.as_slice());
    let ghost seen = texts(all@);
    let mut r: Vec<Filesystem> = Vec::new();
    let mut i: usize = 0;
    assert(seen.take(0) =~= Seq::<Seq<char>>::empty());
    assert(views(r@) =~= Seq::<FilesystemView>::empty());
    while i < all.len()
        invariant
            i <= all@.len(),
            seen == texts(all@),
            views(r@) == filesystems_on(seen.take(i as int), spaces@),
        decreases all@.len() - i,
    {
        assert(seen.take(i + 1).drop_last() =~= seen.take(i as int));
        assert(seen.take(i + 1).last() == all@[i as int]@);
        let ghost before = views(r@);
        if let Some(mount) = parse_mount(all[i]) {
            if !is_mounted_at(&r, mount.mountpoint.as_str()) {
                if let Some((size_bytes, available_bytes)) = filesystem_space(
                    spaces,
                    mount.mountpoint.as_str(),
                ) {
                    let filesystem = Filesystem {
                        device: mount.device,
                        mountpoint: mount.mountpoint,
                        filesystem_type: mount.filesystem_type,
                        size_bytes,
                        available_bytes,
                    };
                    let ghost found = filesystem@;
                    r.push(filesystem);
                    assert(views(r@) =~= before.push(found));
                }
            }
        }
        i += 1;
    }
    assert(seen.take(i as int) =~= seen);
    sort(r)
}

/// The mount points on some lines, in the order of the lines.
pub open spec fn mountpoints_on(lines: Seq<Seq<char>>) -> Seq<Seq<char>> {
    kept(
        lines,
        |line: Seq<char>|
            match mount_of(line) {
                Some(mount) => Some(mount.mountpoint),
                None => None,
            },
    )
}

/// The mount points of which the space is asked for.
pub fn mountpoints(input: &str) -> (r: Vec<String>)
    ensures
        views(r@) == mountpoints_on(text_lines(input@)),
{
    let chars: Vec<char> = characters(input);
    let all: Vec<&[char]> = lines(chars.as_slice());
    let ghost seen = texts(all@);
    let ghost f = |line: Seq<char>|
        match mount_of(line) {
            Some(mount) => Some(mount.mountpoint),
            None => None,
        };
    let mut r: Vec<String> = Vec::new();
    let mut i: usize = 0;
    proof {
        lemma_kept_none(seen, f);
        assert(views(r@) =~= Seq::<Seq<char>>::empty());
    }
    while i < all.len()
        invariant
            i <= all@.len(),
            seen == texts(all@),
            f == |line: Seq<char>|
                match mount_of(line) {
                    Some(mount) => Some(mount.mountpoint),
                    None => None,
                },
            views(r@) == kept(seen.take(i as int), f),
        decreases all@.len() - i,
    {
        let ghost before = views(r@);
        proof {
            lemma_kept_next(seen, f, i as int);
            assert(seen[i as int] == all@[i as int]@);
        }
        if let Some(mount) = parse_mount(all[i]) {
            r.push(mount.mountpoint);
            assert(views(r@) =~= before.push(mount.mountpoint@));
        }
        i += 1;
    }
    r
}

/// A path without the slashes that it begins with.
pub open spec fn relative(path: Seq<char>) -> Seq<char>
    decreases path.len(),
{
    if path.len() > 0 && path[0] == '/' {
        relative(path.skip(1))
    } else {
        path
    }
}

/// A path without the slashes that it begins with, so that it can be looked up
/// below another root.
pub fn relative_path(path: &str) -> (r: String)
    ensures
        r@ == relative(path@),
{
    let chars: Vec<char> = characters(path);
    let mut start: usize = 0;
    assert(chars@.skip(0) =~= chars@);
    while start < chars.len() && chars[start] == '/'
        invariant
            start <= chars@.len(),
            relative(chars@.skip(start as int)) == relative(chars@),
        decreases chars@.len() - start,
    {
        assert(chars@.skip(start as int).skip(1) =~= chars@.skip(start + 1));
        start += 1;
    }
    let rest = slice_subrange(chars.as_slice(), start, chars.len());
    assert(rest@ =~= chars@.skip(start as int));
    owned(rest)
}

/// Every mount point is listed once, and none is that of a pseudo filesystem.
pub proof fn law_mountpoints_are_listed_once(lines: Seq<Seq<char>>, spaces: Seq<Space>, i: int)
    requires
        0 <= i < filesystems_on(lines, spaces).len(),
    ensures
        !pseudo_filesystem(filesystems_on(lines, spaces)[i].filesystem_type),
        forall|j: int|
            0 <= j < filesystems_on(lines, spaces).len() && j != i ==> (#[trigger] filesystems_on(
                lines,
                spaces,
            )[j]).mountpoint != filesystems_on(lines, spaces)[i].mountpoint,
    decreases lines.len(),
{
    let all = filesystems_on(lines, spaces);
    let before = filesystems_on(lines.drop_last(), spaces);
    if i < before.len() {
        law_mountpoints_are_listed_once(lines.drop_last(), spaces, i);
        assert(all[i] == before[i]);
    }
    assert forall|j: int| 0 <= j < all.len() && j != i implies (#[trigger] all[j]).mountpoint
        != all[i].mountpoint by {
        if j < before.len() {
            assert(all[j] == before[j]);
        }
    }
}

/// A line of `diskstats` counts the sectors of 512 bytes that its sixth and its tenth word
/// say a disk has read and written, unless the disk is a loop device, a RAM disk or a
/// partition, whose line counts nothing.
pub proof fn law_a_disk_line_counts_its_sectors(
    text: Seq<char>,
    partitions: Seq<String>,
    words: Seq<Seq<char>>,
    read: u64,
    written: u64,
)
    requires
        complete(text),
        words.len() >= 14,
        forall|i: int| 0 <= i < words.len() ==> wordlike(#[trigger] words[i]),
        words[5] == decimal(read as nat),
        words[9] == decimal(written as nat),
    ensures
        ({
            let lines = text_lines(text + spaced(words).push('\n'));
            let counts = !begins(words[2], "loop"@) && !begins(words[2], "ram"@) && !named(
                partitions,
                words[0] + seq![':'] + words[1],
            );
            &&& bytes_read(lines, partitions) == bytes_read(text_lines(text), partitions)
                + if counts {
                read * 512
            } else {
                0
            }
            &&& bytes_written(lines, partitions) == bytes_written(text_lines(text), partitions)
                + if counts {
                written * 512
            } else {
                0
            }
        }),
{
    lemma_decimal_is_a_word(read as nat);
    lemma_decimal_is_a_word(written as nat);
    law_words_read_back(words);
    lemma_spaced_is_one_line(words);
    law_one_line_more(text, spaced(words));
    let all = text_lines(text).push(spaced(words));
    assert(all.drop_last() =~= text_lines(text));
    assert(words[0].push(':') + words[1] =~= words[0] + seq![':'] + words[1]);
}

/// A line of the mount table reads back: the mount point is its fifth word, and behind the
/// hyphen stand the type and the device, all as they were before blanks were escaped.
pub proof fn law_a_mount_line_reads_back(
    words: Seq<Seq<char>>,
    mountpoint: Seq<char>,
    kind: Seq<char>,
    device: Seq<char>,
    rest: Seq<char>,
)
    requires
        words.len() >= 5,
        forall|i: int| 0 <= i < words.len() ==> wordlike(#[trigger] words[i]),
        words[4] == encoded(mountpoint),
        wordlike(kind),
        wordlike(encoded(device)),
        rest.len() > 0 ==> whitespace(rest[0]),
        forall|i: int|
            0 <= i < spaced(words).len() ==> !begins(
                #[trigger] (spaced(words) + " - "@ + (kind + (seq![' '] + encoded(device)
                    + rest))).skip(i),
                " - "@,
            ),
    ensures
        mount_of(spaced(words) + " - "@ + (kind + (seq![' '] + encoded(device) + rest)))
            == if pseudo_filesystem(kind) {
            None
        } else {
            Some(MountView { device, mountpoint, filesystem_type: kind })
        },
{
    let head = spaced(words);
    let tail = kind + (seq![' '] + encoded(device) + rest);
    let line = head + " - "@ + tail;
    assert(line.skip(head.len() as int).take(" - "@.len() as int) =~= " - "@);
    lemma_occurrence(line, " - "@, 0, head.len() as int);
    assert(line.take(head.len() as int) =~= head);
    assert(line.skip(head.len() as int + " - "@.len()) =~= tail);
    law_words_read_back(words);
    let behind = seq![' '] + encoded(device) + rest;
    assert(behind[0] == ' ');
    law_a_word_reads_back(Seq::empty(), kind, behind);
    assert(Seq::<char>::empty() + kind + behind =~= tail);
    law_a_word_reads_back(seq![' '], encoded(device), rest);
    let fields = seq![kind] + (seq![encoded(device)] + text_words(rest));
    assert(text_words(tail) == fields);
    assert(fields[0] == kind && fields[1] == encoded(device));
    law_mount_field_reads_back(device);
    law_mount_field_reads_back(mountpoint);
}

/// The space of a filesystem is so many blocks as there are and so many as are available,
/// of the size that the system says, and at most the largest number.
pub proof fn law_space_is_counted_in_blocks(spaces: Seq<Space>, k: int)
    requires
        0 <= k < spaces.len(),
        forall|j: int|
            0 <= j < k ==> (#[trigger] spaces[j]).mountpoint@ != spaces[k].mountpoint@,
    ensures
        space_of(spaces, spaces[k].mountpoint@) matches Some((size, available)) && {
            &&& spaces[k].blocks * spaces[k].block_size <= u64::MAX ==> size == spaces[k].blocks
                * spaces[k].block_size
            &&& spaces[k].blocks * spaces[k].block_size > u64::MAX ==> size == u64::MAX
            &&& spaces[k].available_blocks * spaces[k].block_size <= u64::MAX ==> available
                == spaces[k].available_blocks * spaces[k].block_size
            &&& spaces[k].available_blocks * spaces[k].block_size > u64::MAX ==> available
                == u64::MAX
        },
{
    lemma_space_from(spaces, 0, k);
}

proof fn lemma_space_from(spaces: Seq<Space>, from: int, k: int)
    requires
        0 <= from <= k < spaces.len(),
        forall|j: int|
            from <= j < k ==> (#[trigger] spaces[j]).mountpoint@ != spaces[k].mountpoint@,
    ensures
        space_from(spaces, spaces[k].mountpoint@, from) == space_from(
            spaces,
            spaces[k].mountpoint@,
            k,
        ),
    decreases k - from,
{
    if from < k {
        assert(spaces[from].mountpoint@ != spaces[k].mountpoint@);
        lemma_space_from(spaces, from + 1, k);
    }
}

/// A mounted filesystem whose space is known is listed with it, unless another is listed
/// at its mount point already; what was listed before stays.
pub proof fn law_a_mounted_filesystem_is_listed(
    lines: Seq<Seq<char>>,
    spaces: Seq<Space>,
    line: Seq<char>,
)
    ensures
        ({
            let before = filesystems_on(lines, spaces);
            let after = filesystems_on(lines.push(line), spaces);
            match mount_of(line) {
                Some(mount) => if (exists|k: int|
                    0 <= k < before.len() && (#[trigger] before[k]).mountpoint == mount.mountpoint)
                    || space_of(spaces, mount.mountpoint) is None {
                    after == before
                } else {
                    &&& after.len() == before.len() + 1
                    &&& after.take(before.len() as int) == before
                    &&& after.last().device == mount.device
                    &&& after.last().mountpoint == mount.mountpoint
                    &&& after.last().filesystem_type == mount.filesystem_type
                    &&& Some((after.last().size_bytes, after.last().available_bytes)) == space_of(
                        spaces,
                        mount.mountpoint,
                    )
                },
                None => after == before,
            }
        }),
{
    let before = filesystems_on(lines, spaces);
    let after = filesystems_on(lines.push(line), spaces);
    assert(lines.push(line).drop_last() =~= lines);
    if let Some(mount) = mount_of(line) {
        if !mounted_at(before, mount.mountpoint) && space_of(spaces, mount.mountpoint) is Some {
            assert(after.take(before.len() as int) =~= before);
        }
    }
}

/// The filesystems stand in the order of their mount points.
pub proof fn law_filesystems_stand_by_mount_point(
    lines: Seq<Seq<char>>,
    spaces: Seq<Space>,
    i: int,
    j: int,
)
    requires
        0 <= i <= j < arranged::<Filesystem>(filesystems_on(lines, spaces)).len(),
    ensures
        text_le(
            arranged::<Filesystem>(filesystems_on(lines, spaces))[i].mountpoint,
            arranged::<Filesystem>(filesystems_on(lines, spaces))[j].mountpoint,
        ),
{
    let s = arranged::<Filesystem>(filesystems_on(lines, spaces));
    law_arranged_is_sorted::<Filesystem>(filesystems_on(lines, spaces));
    assert(Filesystem::le(s[i], s[j]));
}

/// A path below a root is the path without the slashes that it begins with.
pub proof fn law_a_relative_path_begins_below(path: Seq<char>)
    ensures
        path.len() == 0 || path[0] != '/' ==> relative(path) == path,
        relative(seq!['/'] + path) == relative(path),
        relative(path).len() > 0 ==> relative(path)[0] != '/',
    decreases path.len(),
{
    assert((seq!['/'] + path).skip(1) =~= path);
    if path.len() > 0 && path[0] == '/' {
        law_a_relative_path_begins_below(path.skip(1));
    }
}

/// The filesystems that hold no files of their own are the nineteen that the kernel makes
/// up, and no others.
pub proof fn law_the_made_up_filesystems(kind: Seq<char>)
    ensures
        pseudo_filesystem(kind) <==> seq![
            "autofs"@,
            "binfmt_misc"@,
            "bpf"@,
            "cgroup"@,
            "cgroup2"@,
            "configfs"@,
            "debugfs"@,
            "devpts"@,
            "devtmpfs"@,
            "efivarfs"@,
            "fusectl"@,
            "hugetlbfs"@,
            "mqueue"@,
            "proc"@,
            "pstore"@,
            "securityfs"@,
            "sysfs"@,
            "tmpfs"@,
            "tracefs"@,
        ].contains(kind),
{
    let known = seq![
        "autofs"@,
        "binfmt_misc"@,
        "bpf"@,
        "cgroup"@,
        "cgroup2"@,
        "configfs"@,
        "debugfs"@,
        "devpts"@,
        "devtmpfs"@,
        "efivarfs"@,
        "fusectl"@,
        "hugetlbfs"@,
        "mqueue"@,
        "proc"@,
        "pstore"@,
        "securityfs"@,
        "sysfs"@,
        "tmpfs"@,
        "tracefs"@,
    ];
    assert(known[0] == "autofs"@);
    assert(known[1] == "binfmt_misc"@);
    assert(known[2] == "bpf"@);
    assert(known[3] == "cgroup"@);
    assert(known[4] == "cgroup2"@);
    assert(known[5] == "configfs"@);
    assert(known[6] == "debugfs"@);
    assert(known[7] == "devpts"@);
    assert(known[8] == "devtmpfs"@);
    assert(known[9] == "efivarfs"@);
    assert(known[10] == "fusectl"@);
    assert(known[11] == "hugetlbfs"@);
    assert(known[12] == "mqueue"@);
    assert(known[13] == "proc"@);
    assert(known[14] == "pstore"@);
    assert(known[15] == "securityfs"@);
    assert(known[16] == "sysfs"@);
    assert(known[17] == "tmpfs"@);
    assert(known[18] == "tracefs"@);
    if known.contains(kind) {
        let i = choose|i: int| 0 <= i < known.len() && known[i] == kind;
        assert(0 <= i < 19);
    }
}

/// A line that is too short says nothing, nor does one about a loop device or a RAM disk.
pub proof fn law_some_disk_lines_say_nothing(line: Seq<char>)
    ensures
        text_words(line).len() < 14 ==> disk_of(line) is None,
        text_words(line).len() >= 14 && begins(text_words(line)[2], "loop"@) ==> disk_of(line)
            is None,
        text_words(line).len() >= 14 && begins(text_words(line)[2], "ram"@) ==> disk_of(line)
            is None,
{
}

} // verus!
