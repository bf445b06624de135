use vstd::prelude::*;
use vstd::string::*;
use crate::model::FileItem;
use crate::order::{path_le, sort_drive_items};
use crate::text::{join2, join3, same_text};

verus! {

/// `name` under the logical directory `dir`, with exactly one `sep` between
/// them when `dir` does not already end in it.
pub open spec fn joined_with(dir: Seq<char>, name: Seq<char>, sep: char) -> Seq<char> {
    if dir.len() > 0 && dir.last() == sep {
        dir + name
    } else {
        dir + seq![sep] + name
    }
}

/// `name` under the logical directory `dir`, forward-slash separated.
pub open spec fn joined(dir: Seq<char>, name: Seq<char>) -> Seq<char> {
    joined_with(dir, name, '/')
}

/// The address `remote:path` by which the tool names a location.
pub open spec fn target_of(remote: Seq<char>, path: Seq<char>) -> Seq<char> {
    remote + ":"@ + path
}

/// Joins a directory and an entry name with the separator `sep`.
pub fn join_path_with(dir: &str, name: &str, sep: &str) -> (r: String)
    requires
        sep@.len() == 1,
    ensures
        r@ == joined_with(dir@, name@, sep@[0]),
{
    let n = dir.unicode_len();
    if n > 0 && dir.get_char(n - 1) == sep.get_char(0) {
        join2(dir, name)
    } else {
        assert(sep@ =~= seq![sep@[0]]);
        join3(dir, sep, name)
    }
}

/// The logical path of the entry `name` in the directory `dir`.
pub fn join_entry_path(dir: &str, name: &str) -> (r: String)
    ensures
        r@ == joined(dir@, name@),
{
    proof {
        reveal_strlit("/");
    }
    join_path_with(dir, name, "/")
}

/// The tool's address of `path` on `remote`.
pub fn remote_target(remote: &str, path: &str) -> (r: String)
    ensures
        r@ == target_of(remote@, path@),
{
    join3(remote, ":", path)
}

/// One entry of the tool's JSON directory listing.
#[derive(Debug, Clone, PartialEq, Eq)]
pub struct ListingEntry {
    pub path: String,
    pub name: String,
    pub size: i64,
    pub mime_type: Option<String>,
    pub mod_time: String,
    pub is_dir: bool,
}

/// The item that a listing entry becomes in the directory `dir`.
pub open spec fn item_of_entry(dir: Seq<char>, e: ListingEntry, it: FileItem) -> bool {
    &&& it.name == e.name
    &&& it.path@ == joined(dir, e.name@)
    &&& it.size == e.size
    &&& it.modified == e.mod_time
    &&& it.is_dir == e.is_dir
    &&& it.mime_type == e.mime_type
}

/// The items of a remote directory listing of `dir`, one per entry, in the
/// listing's order, each with its logical path joined under `dir`.
pub fn items_from_listing(dir: &str, entries: Vec<ListingEntry>) -> (r: Vec<FileItem>)
    ensures
        r@.len() == entries@.len(),
        forall|i: int| 0 <= i < r@.len() ==> item_of_entry(dir@, entries@[i], #[trigger] r@[i]),
{
    let ghost orig = entries@;
    let mut rest = entries;
    let mut items: Vec<FileItem> = Vec::new();
    while rest.len() > 0
        invariant
            items@.len() + rest@.len() == orig.len(),
            rest@ == orig.subrange(items@.len() as int, orig.len() as int),
            forall|i: int| 0 <= i < items@.len() ==> item_of_entry(dir@, orig[i], #[trigger] items@[i]),
        decreases rest@.len(),
    {
        let e = rest.remove(0);
        assert(e == orig[items@.len() as int]);
        let path = join_entry_path(dir, e.name.as_str());
        let item = FileItem {
            name: e.name,
            path,
            size: e.size,
            modified: e.mod_time,
            is_dir: e.is_dir,
            mime_type: e.mime_type,
        };
        items.push(item);
        assert(rest@ =~= orig.subrange(items@.len() as int, orig.len() as int));
    }
    items
}

/// The text `YYYY-MM-DD HH:MM:SS` (UTC) of a count of seconds since the Unix
/// epoch, or the empty text where that instant is out of range.
pub uninterp spec fn utc_stamp(secs: int) -> Seq<char>;

/// Relies on chrono's `DateTime::<Utc>::from_timestamp` and `format`: the
/// result depends on `secs` alone.
#[verifier::external_body]
fn format_utc_seconds(secs: i64) -> (r: String)
    ensures
        r@ == utc_stamp(secs as int),
{
    chrono::DateTime::<chrono::Utc>::from_timestamp(secs, 0)
        .map(|dt| dt.format("%Y-%m-%d %H:%M:%S").to_string())
        .unwrap_or_default()
}

/// The modification text of a local entry whose time may be unknown.
pub open spec fn modified_text(secs: Option<i64>) -> Seq<char> {
    match secs {
        None => Seq::empty(),
        Some(s) => utc_stamp(s as int),
    }
}

/// An entry of the local file system as a listing item.
pub fn local_item(name: String, path: String, size: i64, is_dir: bool, modified_secs: Option<i64>) -> (r: FileItem)
    ensures
        r.name == name,
        r.path == path,
        r.size == size,
        r.is_dir == is_dir,
        r.modified@ == modified_text(modified_secs),
        r.mime_type is None,
{
    let modified = match modified_secs {
        None => String::new(),
        Some(s) => format_utc_seconds(s),
    };
    FileItem { name, path, size, modified, is_dir, mime_type: None }
}

/// The single entry that stands for the file system root where no drives are
/// enumerated.
pub fn root_drive_item() -> (r: FileItem)
    ensures
        r.name@ == "Root (/)"@,
        r.path@ == "/"@,
        r.size == 0,
        r.modified@.len() == 0,
        r.is_dir,
        r.mime_type is None,
{
    FileItem {
        name: "Root (/)".to_string(),
        path: "/".to_string(),
        size: 0,
        modified: String::new(),
        is_dir: true,
        mime_type: None,
    }
}

/// The kind of a drive, as the operating system reports it.
#[derive(Debug, Clone, Copy, PartialEq, Eq)]
pub enum DriveKind {
    Fixed,
    Removable,
    Network,
    CdRom,
    Other,
}

/// The generic label of a drive without a volume label.
pub open spec fn kind_label(kind: DriveKind) -> Seq<char> {
    match kind {
        DriveKind::Fixed => "Local Disk"@,
        DriveKind::Removable => "Removable Disk"@,
        DriveKind::Network => "Network Drive"@,
        DriveKind::CdRom => "CD Drive"@,
        DriveKind::Other => "Drive"@,
    }
}

/// The display name of a drive: its volume label, or else its kind, followed
/// by the drive letter as `(C:)`.
pub open spec fn drive_name_of(label: Seq<char>, letter: char, kind: DriveKind) -> Seq<char> {
    let head = if label.len() > 0 { label } else { kind_label(kind) };
    head + " ("@ + seq![letter] + ":)"@
}

fn kind_text(kind: DriveKind) -> (r: &'static str)
    ensures
        r@ == kind_label(kind),
{
    match kind {
        DriveKind::Fixed => "Local Disk",
        DriveKind::Removable => "Removable Disk",
        DriveKind::Network => "Network Drive",
        DriveKind::CdRom => "CD Drive",
        DriveKind::Other => "Drive",
    }
}

/// The display name of the drive whose root is `drive`.
pub fn drive_display_name(drive: &str, label: &str, kind: DriveKind) -> (r: String)
    requires
        drive@.len() > 0,
    ensures
        r@ == drive_name_of(label@, drive@[0], kind),
{
    let letter = drive.substring_char(0, 1);
    assert(letter@ =~= seq![drive@[0]]);
    let head = if label.unicode_len() > 0 { label } else { kind_text(kind) };
    let mut s = join3(head, " (", letter);
    s.append(":)");
    s
}

/// A drive as a listing item: a directory named after its label or kind,
/// whose size is its capacity where that is known.
pub fn drive_item(drive: String, label: &str, kind: DriveKind, capacity: Option<i64>) -> (r: FileItem)
    requires
        drive@.len() > 0,
    ensures
        r.name@ == drive_name_of(label@, drive@[0], kind),
        r.path == drive,
        r.size == match capacity {
            Some(c) => c,
            None => 0,
        },
        r.modified@.len() == 0,
        r.is_dir,
        r.mime_type is None,
{
    let name = drive_display_name(drive.as_str(), label, kind);
    let size = match capacity {
        Some(c) => c,
        None => 0,
    };
    FileItem { name, path: drive, size, modified: String::new(), is_dir: true, mime_type: None }
}


/// Where a directory listing comes from.
#[derive(Debug, Clone, Copy, PartialEq, Eq)]
pub enum ListSource {
    /// The machine's drives.
    Drives,
    /// The local file system.
    Local,
    /// A configured remote, through the tool.
    Remote,
}

/// The label under which the local machine is listed.
pub open spec fn local_label() -> Seq<char> {
    "This PC"@
}

/// The source of a listing of `path` under `remote`: the machine's root lists
/// drives, other paths of the machine list the file system, and any other
/// label names a remote.
pub open spec fn source_of(remote: Seq<char>, path: Seq<char>) -> ListSource {
    if remote == local_label() && path == "/"@ {
        ListSource::Drives
    } else if remote == local_label() {
        ListSource::Local
    } else {
        ListSource::Remote
    }
}

/// Decides where a listing of `path` under `remote` comes from.
pub fn list_source(remote: &str, path: &str) -> (r: ListSource)
    ensures
        r == source_of(remote@, path@),
{
    if same_text(remote, "This PC") {
        if same_text(path, "/") {
            ListSource::Drives
        } else {
            ListSource::Local
        }
    } else {
        ListSource::Remote
    }
}


/// Reading a NUL-separated list of drive roots up to `buf`'s end: the roots
/// found so far, and where the next one starts. A NUL ends a root only when
/// something stands before it since the last root; a NUL that ends nothing
/// does not move the start, so it becomes part of the next root. That is why
/// this is stated as the scan itself rather than as the runs between NULs.
pub open spec fn drive_scan(buf: Seq<u16>) -> (Seq<Seq<u16>>, int)
    decreases buf.len(),
{
    if buf.len() == 0 {
        (Seq::empty(), 0)
    } else {
        let (roots, start) = drive_scan(buf.drop_last());
        let i = buf.len() - 1;
        if buf[i] == 0 && i > start {
            (roots.push(buf.subrange(start, i)), i + 1)
        } else {
            (roots, start)
        }
    }
}

/// The drive roots in a buffer of NUL-terminated wide strings, as the
/// operating system fills it; a root left unterminated at the end is dropped.
pub fn split_drive_strings(buf: &Vec<u16>) -> (r: Vec<Vec<u16>>)
    ensures
        r@.map_values(|v: Vec<u16>| v@) == drive_scan(buf@).0,
{
    let mut roots: Vec<Vec<u16>> = Vec::new();
    let mut start: usize = 0;
    let mut i: usize = 0;
    assert(buf@.subrange(0, 0) =~= Seq::<u16>::empty());
    while i < buf.len()
        invariant
            i <= buf@.len(),
            start <= i,
            drive_scan(buf@.subrange(0, i as int)) == (roots@.map_values(|v: Vec<u16>| v@), start as int),
        decreases buf@.len() - i,
    {
        let ghost pre = buf@.subrange(0, i as int + 1);
        assert(pre.drop_last() =~= buf@.subrange(0, i as int));
        if buf[i] == 0 && i > start {
            let mut root: Vec<u16> = Vec::new();
            let mut j: usize = start;
            while j < i
                invariant
                    start <= j <= i < buf@.len(),
                    root@ == buf@.subrange(start as int, j as int),
                decreases i - j,
            {
                root.push(buf[j]);
                assert(root@ =~= buf@.subrange(start as int, j as int + 1));
                j = j + 1;
            }
            assert(pre.subrange(start as int, i as int) =~= root@);
            roots.push(root);
            assert(roots@.map_values(|v: Vec<u16>| v@) =~= drive_scan(pre).0);
            start = i + 1;
        }
        i = i + 1;
    }
    assert(buf@.subrange(0, buf@.len() as int) =~= buf@);
    roots
}

/// What the operating system reports of one drive.
#[derive(Debug, Clone, PartialEq, Eq)]
pub struct DriveInfo {
    pub root: String,
    pub label: String,
    pub kind: DriveKind,
    pub capacity: Option<i64>,
}

/// `it` is the listing item of the drive `d`.
pub open spec fn item_of_drive(d: DriveInfo, it: FileItem) -> bool {
    &&& d.root@.len() > 0
    &&& it.name@ == drive_name_of(d.label@, d.root@[0], d.kind)
    &&& it.path == d.root
    &&& it.size == match d.capacity {
        Some(c) => c,
        None => 0,
    }
    &&& it.modified@.len() == 0
    &&& it.is_dir
    &&& it.mime_type is None
}

/// How many of the drives have a root that is not empty.
pub open spec fn named_drive_count(ds: Seq<DriveInfo>) -> nat
    decreases ds.len(),
{
    if ds.len() == 0 {
        0
    } else {
        named_drive_count(ds.drop_last()) + if ds.last().root@.len() > 0 {
            1nat
        } else {
            0nat
        }
    }
}

/// The listing of the machine's drives: one directory item for each drive
/// whose root is not empty, the others left out, in order of their paths.
pub fn drive_listing(drives: Vec<DriveInfo>) -> (r: Vec<FileItem>)
    ensures
        r@.len() == named_drive_count(drives@),
        forall|i: int| 0 <= i < r@.len() ==> (#[trigger] r@[i]).is_dir && r@[i].mime_type is None && r@[i].modified@.len() == 0,
        forall|i: int| 0 <= i < r@.len() ==> exists|j: int| 0 <= j < drives@.len() && item_of_drive(drives@[j], #[trigger] r@[i]),
        forall|i: int, j: int| 0 <= i < j < r@.len() ==> path_le(#[trigger] r@[i], #[trigger] r@[j]),
{
    let ghost orig = drives@;
    let mut rest = drives;
    let mut built: Vec<FileItem> = Vec::new();
    let mut k: usize = 0;
    let n = rest.len();
    assert(orig.subrange(0, 0) =~= Seq::<DriveInfo>::empty());
    while rest.len() > 0
        invariant
            n == orig.len(),
            k + rest@.len() == orig.len(),
            rest@ == orig.subrange(k as int, orig.len() as int),
            built@.len() == named_drive_count(orig.subrange(0, k as int)),
            forall|i: int| 0 <= i < built@.len() ==> exists|j: int| 0 <= j < k && item_of_drive(orig[j], #[trigger] built@[i]),
        decreases rest@.len(),
    {
        let d = rest.remove(0);
        assert(d == orig[k as int]);
        assert(orig.subrange(0, k as int + 1).drop_last() =~= orig.subrange(0, k as int));
        if d.root.as_str().unicode_len() > 0 {
            let item = drive_item(d.root, d.label.as_str(), d.kind, d.capacity);
            assert(item_of_drive(orig[k as int], item));
            built.push(item);
            assert forall|i: int| 0 <= i < built@.len() implies exists|j: int| 0 <= j < k + 1 && item_of_drive(orig[j], #[trigger] built@[i]) by {
                if i == built@.len() - 1 {
                    assert(item_of_drive(orig[k as int], built@[i]));
                } else {
                    assert(built@[i] == built@.drop_last()[i]);
                }
            }
        }
        k = k + 1;
        assert(rest@ =~= orig.subrange(k as int, orig.len() as int));
    }
    assert(orig.subrange(0, k as int) =~= orig);
    let ghost b = built@;
    let r = sort_drive_items(built);
    proof {
        broadcast use vstd::seq_lib::group_to_multiset_ensures;
        assert forall|i: int| 0 <= i < r@.len() implies exists|j: int| 0 <= j < orig.len() && item_of_drive(orig[j], #[trigger] r@[i]) by {
            assert(r@.contains(r@[i]));
            assert(r@.to_multiset().count(r@[i]) > 0);
            assert(b.contains(r@[i]));
            let m = choose|m: int| 0 <= m < b.len() && b[m] == r@[i];
            assert(exists|j: int| 0 <= j < orig.len() && item_of_drive(orig[j], b[m]));
        }
        assert(r@.len() == b.len()) by {
            assert(r@.to_multiset().len() == b.to_multiset().len());
        }
    }
    r
}

} // verus!
