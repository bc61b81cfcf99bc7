//! Block-device provenance: from a mount point through stacked virtual
//! devices down to the physical partition, and from there to the stable
//! identifiers under which the system knows that partition.
//!
//! All queries work on a `SystemInfo`, a snapshot of the mount table, of the
//! block-device tree and of the identifier directories.

use vstd::prelude::*;
use crate::path::last_slash;
use crate::text::{
    chars_of, fields, lines, push_text, same_chars, same_text, split_fields, split_lines,
    starts_with, text_of, texts,
};

verus! {

/// Why a device could not be resolved.
#[derive(Clone, Copy, Debug, PartialEq, Eq, Structural)]
pub enum DeviceResolutionError {
    /// No entry of the mount table is mounted at the root.
    MountEntryNotFound,
    /// A device has no record in the block-device tree, a chain of devices
    /// leads back into itself, or an identifier directory does not exist.
    SysfsEntryMissing,
    /// The path of the device does not resolve.
    SymlinkUnresolved,
    /// No identifier points at the device.
    IdNotFound,
}

/// One entry of the mount table.
#[derive(Debug)]
pub struct MountEntry {
    pub device_spec: String,
    pub mount_point: String,
}

/// The record of one block device: its name and the names of the devices it
/// is built on, in the order in which the system lists them. A device with
/// no slaves is a physical partition.
#[derive(Debug)]
pub struct BlockDeviceNode {
    pub name: String,
    pub slaves: Vec<String>,
}

/// A path that exists, with the path it resolves to once every symbolic link
/// is followed.
#[derive(Debug)]
pub struct ResolvedPath {
    pub path: String,
    pub canonical: String,
}

/// One entry of an identifier directory: the identifier, and the canonical
/// path of the device it points at, where the link resolves.
#[derive(Debug)]
pub struct IdLink {
    pub name: String,
    pub target: Option<String>,
}

/// The kinds of stable identifier.
#[derive(Clone, Copy, Debug, PartialEq, Eq, Structural)]
pub enum IdNamespace {
    /// Identifiers of partitions.
    PartUuid,
    /// Identifiers of file systems and encryption containers.
    Uuid,
}

/// What the system says about its storage at one instant.
#[derive(Debug)]
pub struct SystemInfo {
    /// The mount table, in its own order.
    pub mounts: Vec<MountEntry>,
    /// The paths that exist, each with its canonical path.
    pub resolved: Vec<ResolvedPath>,
    /// The block-device tree.
    pub block_devices: Vec<BlockDeviceNode>,
    /// The directory of partition identifiers, if it exists.
    pub by_partuuid: Option<Vec<IdLink>>,
    /// The directory of file-system identifiers, if it exists.
    pub by_uuid: Option<Vec<IdLink>>,
}

/// Why the partition under the root file system could not be identified.
#[derive(Clone, Copy, Debug, PartialEq, Eq, Structural)]
pub enum DetectError {
    /// The root file system is not on a mapped device.
    NotMapped,
    /// The device could not be resolved.
    Resolution(DeviceResolutionError),
}

/// The device and the mount point of each line that has at least two
/// fields, in the order of the lines.
pub open spec fn entries_of(ls: Seq<Seq<char>>) -> Seq<(Seq<char>, Seq<char>)>
    decreases ls.len(),
{
    if ls.len() == 0 {
        Seq::empty()
    } else if fields(ls.last()).len() >= 2 {
        entries_of(ls.drop_last()).push((fields(ls.last())[0], fields(ls.last())[1]))
    } else {
        entries_of(ls.drop_last())
    }
}

/// The entries of a mount table as pairs of device and mount point.
pub open spec fn mount_pairs(mounts: Seq<MountEntry>) -> Seq<(Seq<char>, Seq<char>)> {
    Seq::new(mounts.len(), |i: int| (mounts[i].device_spec@, mounts[i].mount_point@))
}

/// The second field of the first pair at or behind `from` whose first field
/// is `key`.
pub open spec fn second_of(pairs: Seq<(Seq<char>, Seq<char>)>, key: Seq<char>, from: int) -> Option<
    Seq<char>,
>
    decreases pairs.len() - from,
{
    if 0 <= from < pairs.len() {
        if pairs[from].0 == key {
            Some(pairs[from].1)
        } else {
            second_of(pairs, key, from + 1)
        }
    } else {
        None
    }
}

/// The first field of the first pair at or behind `from` whose second field
/// is `key`.
pub open spec fn first_of(pairs: Seq<(Seq<char>, Seq<char>)>, key: Seq<char>, from: int) -> Option<
    Seq<char>,
>
    decreases pairs.len() - from,
{
    if 0 <= from < pairs.len() {
        if pairs[from].1 == key {
            Some(pairs[from].0)
        } else {
            first_of(pairs, key, from + 1)
        }
    } else {
        None
    }
}

/// The name of a device: what follows the last `/` of its path.
pub open spec fn device_name(path: Seq<char>) -> Seq<char> {
    path.subrange(last_slash(path, path.len() as int) + 1, path.len() as int)
}

/// The path of the device with this name.
pub open spec fn device_path(name: Seq<char>) -> Seq<char> {
    "/dev/"@ + name
}

/// The names of the devices on a list of paths.
pub open spec fn names_of(paths: Seq<Seq<char>>) -> Seq<Seq<char>> {
    Seq::new(paths.len(), |i: int| device_name(paths[i]))
}

/// The canonical path of the first entry at or behind `from` that is for
/// `path`.
pub open spec fn canonical_from(resolved: Seq<ResolvedPath>, path: Seq<char>, from: int) -> Option<
    Seq<char>,
>
    decreases resolved.len() - from,
{
    if 0 <= from < resolved.len() {
        if resolved[from].path@ == path {
            Some(resolved[from].canonical@)
        } else {
            canonical_from(resolved, path, from + 1)
        }
    } else {
        None
    }
}

/// The position of the first record at or behind `from` that has this name.
pub open spec fn node_from(nodes: Seq<BlockDeviceNode>, name: Seq<char>, from: int) -> Option<int>
    decreases nodes.len() - from,
{
    if 0 <= from < nodes.len() {
        if nodes[from].name@ == name {
            Some(from)
        } else {
            node_from(nodes, name, from + 1)
        }
    } else {
        None
    }
}

/// The identifier of the first link at or behind `from` that points at
/// `target`.
pub open spec fn link_from(links: Seq<IdLink>, target: Seq<char>, from: int) -> Option<Seq<char>>
    decreases links.len() - from,
{
    if 0 <= from < links.len() {
        if links[from].target matches Some(t) && t@ == target {
            Some(links[from].name@)
        } else {
            link_from(links, target, from + 1)
        }
    } else {
        None
    }
}

impl SystemInfo {
    /// The canonical path of a path that exists.
    pub open spec fn canonical_of(&self, path: Seq<char>) -> Option<Seq<char>> {
        canonical_from(self.resolved@, path, 0)
    }

    /// The canonical path of `path`, or `path` itself where it does not
    /// exist.
    pub open spec fn resolve(&self, path: Seq<char>) -> Seq<char> {
        match self.canonical_of(path) {
            Some(c) => c,
            None => path,
        }
    }

    /// The record of the device with this name.
    pub open spec fn node_named(&self, name: Seq<char>) -> Option<BlockDeviceNode> {
        match node_from(self.block_devices@, name, 0) {
            Some(i) => Some(self.block_devices@[i]),
            None => None,
        }
    }

    /// The device at `path` has a record and no slaves.
    pub open spec fn is_terminal(&self, path: Seq<char>) -> bool {
        self.node_named(device_name(path)) matches Some(node) && node.slaves@.len() == 0
    }

    /// The device at `path` has a record and slaves, and `next` is the
    /// canonical path of the first of them.
    pub open spec fn leads_to(&self, path: Seq<char>, next: Seq<char>) -> bool {
        self.node_named(device_name(path)) matches Some(node) && node.slaves@.len() > 0 && next
            == self.resolve(device_path(node.slaves@[0]@))
    }

    /// The devices from `cur` down to the physical partition under it, behind
    /// those already `seen`: at each virtual device the walk goes on with
    /// the first slave. `None` where a device has no record or the walk
    /// comes to a device whose name it has seen.
    pub open spec fn walk(&self, cur: Seq<char>, seen: Seq<Seq<char>>) -> Option<Seq<Seq<char>>>
        decreases self.block_devices@.len() - seen.len(),
    {
        if names_of(seen).contains(device_name(cur)) {
            None
        } else {
            match self.node_named(device_name(cur)) {
                None => None,
                Some(node) => if node.slaves@.len() == 0 {
                    Some(seen.push(cur))
                } else if seen.len() >= self.block_devices@.len() {
                    // Never reached from an empty `seen`: see `lemma_depth_is_not_limited`.
                    None
                } else {
                    self.walk(self.resolve(device_path(node.slaves@[0]@)), seen.push(cur))
                },
            }
        }
    }

    /// The chain of devices from the one at `path` down to the physical
    /// partition.
    pub open spec fn chain_of(&self, path: Seq<char>) -> Option<Seq<Seq<char>>> {
        self.walk(self.resolve(path), Seq::empty())
    }

    /// The entries of an identifier directory, if the directory exists.
    pub open spec fn links_of(&self, namespace: IdNamespace) -> Option<Seq<IdLink>> {
        match namespace {
            IdNamespace::PartUuid => match self.by_partuuid {
                Some(v) => Some(v@),
                None => None,
            },
            IdNamespace::Uuid => match self.by_uuid {
                Some(v) => Some(v@),
                None => None,
            },
        }
    }

    /// The stable identifier of a device: the name of the first link of the
    /// directory that points at the canonical path of the device.
    pub open spec fn stable_id(&self, device: Seq<char>, namespace: IdNamespace) -> Result<
        Seq<char>,
        DeviceResolutionError,
    > {
        match self.links_of(namespace) {
            None => Err(DeviceResolutionError::SysfsEntryMissing),
            Some(links) => match self.canonical_of(device) {
                None => Err(DeviceResolutionError::SymlinkUnresolved),
                Some(target) => match link_from(links, target, 0) {
                    Some(id) => Ok(id),
                    None => Err(DeviceResolutionError::IdNotFound),
                },
            },
        }
    }

    /// The device that is mounted at the root.
    pub open spec fn root_device(&self) -> Option<Seq<char>> {
        first_of(mount_pairs(self.mounts@), seq!['/'], 0)
    }

    /// The partition identifier of the physical partition under the root
    /// file system, which has to be on a mapped device.
    pub open spec fn root_partuuid(&self) -> Result<Seq<char>, DetectError> {
        match self.root_device() {
            None => Err(DetectError::Resolution(DeviceResolutionError::MountEntryNotFound)),
            Some(root) => if !is_mapped(root) {
                Err(DetectError::NotMapped)
            } else {
                match self.chain_of(root) {
                    None => Err(DetectError::Resolution(DeviceResolutionError::SysfsEntryMissing)),
                    Some(chain) => match self.stable_id(chain.last(), IdNamespace::PartUuid) {
                        Ok(id) => Ok(id),
                        Err(e) => Err(DetectError::Resolution(e)),
                    },
                }
            },
        }
    }
}

/// The device is one that the device mapper made.
pub open spec fn is_mapped(device: Seq<char>) -> bool {
    crate::text::has_prefix(device, "/dev/mapper/"@) || crate::text::has_prefix(device, "/dev/dm-"@)
}


/// The characters of each vector of a list.
pub open spec fn char_views(v: Seq<Vec<char>>) -> Seq<Seq<char>> {
    Seq::new(v.len(), |i: int| v[i]@)
}

/// Reads a mount table: each line with at least two fields gives an entry,
/// the first field being the device and the second the mount point.
pub fn parse_mount_table(table: &str) -> (r: Vec<MountEntry>)
    ensures
        mount_pairs(r@) == entries_of(lines(table@)),
{
    let chars = chars_of(table);
    let ls = split_lines(&chars);
    let ghost all = lines(table@);
    let mut out: Vec<MountEntry> = Vec::new();
    let mut i: usize = 0;
    while i < ls.len()
        invariant
            i <= ls.len(),
            ls.len() == all.len(),
            forall|k: int| 0 <= k < ls.len() ==> (#[trigger] ls@[k])@ == all[k],
            mount_pairs(out@) == entries_of(all.take(i as int)),
        decreases ls.len() - i,
    {
        let f = split_fields(&ls[i]);
        proof {
            assert(all.take(i + 1).drop_last() == all.take(i as int));
            assert(all.take(i + 1).last() == all[i as int]);
        }
        if f.len() >= 2 {
            let entry = MountEntry { device_spec: text_of(&f[0]), mount_point: text_of(&f[1]) };
            let ghost before = out@;
            out.push(entry);
            assert(mount_pairs(out@) =~= mount_pairs(before).push(
                (fields(all[i as int])[0], fields(all[i as int])[1]),
            ));
        }
        i += 1;
    }
    assert(all.take(ls.len() as int) == all);
    out
}

/// The parent of a device in a listing of names and parents: the second
/// field of the first line that has at least two fields and whose first
/// field is `name`.
pub fn parent_device(listing: &str, name: &str) -> (r: Option<String>)
    ensures
        match r {
            Some(parent) => second_of(entries_of(lines(listing@)), name@, 0) == Some(parent@),
            None => second_of(entries_of(lines(listing@)), name@, 0) is None,
        },
{
    let entries = parse_mount_table(listing);
    let ghost pairs = mount_pairs(entries@);
    let mut i: usize = 0;
    while i < entries.len()
        invariant
            i <= entries.len(),
            pairs == mount_pairs(entries@),
            pairs == entries_of(lines(listing@)),
            second_of(pairs, name@, 0) == second_of(pairs, name@, i as int),
        decreases entries.len() - i,
    {
        if same_text(entries[i].device_spec.as_str(), name) {
            return Some(entries[i].mount_point.clone());
        }
        i += 1;
    }
    None
}

/// The name of a device: what follows the last `/` of its path.
pub fn name_of(path: &Vec<char>) -> (r: Vec<char>)
    ensures
        r@ == device_name(path@),
{
    let mut start: usize = path.len();
    while start > 0 && path[start - 1] != '/'
        invariant
            start <= path.len(),
            last_slash(path@, path@.len() as int) == last_slash(path@, start as int),
        decreases start,
    {
        start -= 1;
    }
    crate::text::chars_between(path, start, path.len())
}

fn seen_before(names: &Vec<Vec<char>>, name: &Vec<char>) -> (r: bool)
    ensures
        r == char_views(names@).contains(name@),
{
    let mut i: usize = 0;
    while i < names.len()
        invariant
            i <= names.len(),
            forall|k: int| 0 <= k < i ==> char_views(names@)[k] != name@,
        decreases names.len() - i,
    {
        if same_chars(&names[i], name) {
            assert(char_views(names@)[i as int] == name@);
            return true;
        }
        i += 1;
    }
    false
}

impl SystemInfo {
    /// The canonical path of `path`, if the path exists.
    pub fn canonicalize(&self, path: &str) -> (r: Option<String>)
        ensures
            match r {
                Some(c) => self.canonical_of(path@) == Some(c@),
                None => self.canonical_of(path@) is None,
            },
    {
        let mut i: usize = 0;
        while i < self.resolved.len()
            invariant
                i <= self.resolved.len(),
                self.canonical_of(path@) == canonical_from(self.resolved@, path@, i as int),
            decreases self.resolved.len() - i,
        {
            if same_text(self.resolved[i].path.as_str(), path) {
                return Some(self.resolved[i].canonical.clone());
            }
            i += 1;
        }
        None
    }

    /// The canonical path of `path`, or `path` itself where it does not
    /// exist.
    pub fn resolve_path(&self, path: &str) -> (r: String)
        ensures
            r@ == self.resolve(path@),
    {
        match self.canonicalize(path) {
            Some(c) => c,
            None => path.to_owned(),
        }
    }

    /// The position of the record of the device with this name.
    pub fn find_node(&self, name: &str) -> (r: Option<usize>)
        ensures
            match r {
                Some(i) => node_from(self.block_devices@, name@, 0) == Some(i as int) && i
                    < self.block_devices.len(),
                None => node_from(self.block_devices@, name@, 0) is None,
            },
    {
        let mut i: usize = 0;
        while i < self.block_devices.len()
            invariant
                i <= self.block_devices.len(),
                node_from(self.block_devices@, name@, 0) == node_from(
                    self.block_devices@,
                    name@,
                    i as int,
                ),
            decreases self.block_devices.len() - i,
        {
            if same_text(self.block_devices[i].name.as_str(), name) {
                return Some(i);
            }
            i += 1;
        }
        None
    }
}

/// The device that is mounted at the root of the file system.
pub fn get_root_device(info: &SystemInfo) -> (r: Result<String, DeviceResolutionError>)
    ensures
        match r {
            Ok(device) => info.root_device() == Some(device@),
            Err(e) => e == DeviceResolutionError::MountEntryNotFound && info.root_device() is None,
        },
{
    let ghost pairs = mount_pairs(info.mounts@);
    let mut i: usize = 0;
    while i < info.mounts.len()
        invariant
            i <= info.mounts.len(),
            pairs == mount_pairs(info.mounts@),
            info.root_device() == first_of(pairs, seq!['/'], i as int),
        decreases info.mounts.len() - i,
    {
        proof {
            reveal_strlit("/");
            assert("/"@ =~= seq!['/']);
        }
        if same_text(info.mounts[i].mount_point.as_str(), "/") {
            return Ok(info.mounts[i].device_spec.clone());
        }
        i += 1;
    }
    Err(DeviceResolutionError::MountEntryNotFound)
}

/// The devices from the one at `device_path` down to the physical partition
/// under it, each by its canonical path. The last is the partition; a
/// device that is not virtual gives a chain of one. A device without a
/// record, and a chain that leads back into itself, are `SysfsEntryMissing`.
pub fn trace_chain(info: &SystemInfo, device_path: &str) -> (r: Result<
    Vec<String>,
    DeviceResolutionError,
>)
    ensures
        match r {
            Ok(chain) => info.chain_of(device_path@) == Some(texts(chain@)) && chain.len() > 0,
            Err(e) => e == DeviceResolutionError::SysfsEntryMissing && info.chain_of(device_path@)
                is None,
        },
{
    let mut chain: Vec<String> = Vec::new();
    let mut names: Vec<Vec<char>> = Vec::new();
    let mut cur: String = info.resolve_path(device_path);
    assert(texts(chain@) =~= Seq::<Seq<char>>::empty());
    loop
        invariant
            names.len() == chain.len(),
            chain.len() <= info.block_devices.len(),
            forall|k: int| 0 <= k < names.len() ==> (#[trigger] names@[k])@ == device_name(chain@[k]@),
            info.chain_of(device_path@) == info.walk(cur@, texts(chain@)),
        decreases info.block_devices.len() - chain.len(),
    {
        let path = chars_of(cur.as_str());
        let name = name_of(&path);
        assert(names_of(texts(chain@)) =~= char_views(names@));
        if seen_before(&names, &name) {
            return Err(DeviceResolutionError::SysfsEntryMissing);
        }
        let name_text = text_of(&name);
        match info.find_node(name_text.as_str()) {
            None => {
                return Err(DeviceResolutionError::SysfsEntryMissing);
            },
            Some(at) => {
                let node = &info.block_devices[at];
                if node.slaves.len() == 0 {
                    let ghost before = texts(chain@);
                    chain.push(cur);
                    assert(texts(chain@) =~= before.push(cur@));
                    return Ok(chain);
                }
                if chain.len() >= info.block_devices.len() {
                    return Err(DeviceResolutionError::SysfsEntryMissing);
                }
                let mut slave: Vec<char> = Vec::new();
                push_text(&mut slave, "/dev/");
                push_text(&mut slave, node.slaves[0].as_str());
                let slave_text = text_of(&slave);
                let next = info.resolve_path(slave_text.as_str());
                let ghost before = texts(chain@);
                let ghost here = cur@;
                chain.push(cur);
                names.push(name);
                assert(texts(chain@) =~= before.push(here));
                cur = next;
            },
        }
    }
}

/// The physical partition under a device: the last device of its chain. A
/// device that is not virtual is its own partition, by its canonical path.
pub fn trace_to_physical_partition(info: &SystemInfo, device_path: &str) -> (r: Result<
    String,
    DeviceResolutionError,
>)
    ensures
        match r {
            Ok(device) => info.chain_of(device_path@) matches Some(chain) && chain.len() > 0
                && device@ == chain.last(),
            Err(e) => e == DeviceResolutionError::SysfsEntryMissing && info.chain_of(device_path@)
                is None,
        },
{
    match trace_chain(info, device_path) {
        Ok(chain) => {
            let last = chain[chain.len() - 1].clone();
            Ok(last)
        },
        Err(e) => Err(e),
    }
}

/// The stable identifier of a device in one namespace: the name of the
/// first link of the namespace directory whose target is the canonical path
/// of the device. `SysfsEntryMissing` where the directory does not exist,
/// `SymlinkUnresolved` where the device path does not resolve, `IdNotFound`
/// where no link points at the device.
pub fn resolve_stable_id(info: &SystemInfo, device: &str, namespace: IdNamespace) -> (r: Result<
    String,
    DeviceResolutionError,
>)
    ensures
        match r {
            Ok(id) => info.stable_id(device@, namespace) == Ok::<Seq<char>, DeviceResolutionError>(
                id@,
            ),
            Err(e) => info.stable_id(device@, namespace) == Err::<Seq<char>, DeviceResolutionError>(
                e,
            ),
        },
{
    let links = match namespace {
        IdNamespace::PartUuid => &info.by_partuuid,
        IdNamespace::Uuid => &info.by_uuid,
    };
    match links {
        None => Err(DeviceResolutionError::SysfsEntryMissing),
        Some(links) => {
            match info.canonicalize(device) {
                None => Err(DeviceResolutionError::SymlinkUnresolved),
                Some(target) => {
                    let mut i: usize = 0;
                    while i < links.len()
                        invariant
                            i <= links.len(),
                            info.links_of(namespace) == Some(links@),
                            info.canonical_of(device@) == Some(target@),
                            link_from(links@, target@, 0) == link_from(links@, target@, i as int),
                        decreases links.len() - i,
                    {
                        match &links[i].target {
                            Some(t) => {
                                if same_text(t.as_str(), target.as_str()) {
                                    return Ok(links[i].name.clone());
                                }
                            },
                            None => {},
                        }
                        i += 1;
                    }
                    Err(DeviceResolutionError::IdNotFound)
                },
            }
        },
    }
}

/// The partition identifier of a device.
pub fn get_partuuid(info: &SystemInfo, device_path: &str) -> (r: Result<
    String,
    DeviceResolutionError,
>)
    ensures
        match r {
            Ok(id) => info.stable_id(device_path@, IdNamespace::PartUuid) == Ok::<
                Seq<char>,
                DeviceResolutionError,
            >(id@),
            Err(e) => info.stable_id(device_path@, IdNamespace::PartUuid) == Err::<
                Seq<char>,
                DeviceResolutionError,
            >(e),
        },
{
    resolve_stable_id(info, device_path, IdNamespace::PartUuid)
}

/// The identifier of the file system or encryption container on a device.
pub fn get_uuid(info: &SystemInfo, device_path: &str) -> (r: Result<String, DeviceResolutionError>)
    ensures
        match r {
            Ok(id) => info.stable_id(device_path@, IdNamespace::Uuid) == Ok::<
                Seq<char>,
                DeviceResolutionError,
            >(id@),
            Err(e) => info.stable_id(device_path@, IdNamespace::Uuid) == Err::<
                Seq<char>,
                DeviceResolutionError,
            >(e),
        },
{
    resolve_stable_id(info, device_path, IdNamespace::Uuid)
}

/// Whether a device is one that the device mapper made: its path starts
/// with `/dev/mapper/` or with `/dev/dm-`.
pub fn mapped_device(device: &str) -> (r: bool)
    ensures
        r == is_mapped(device@),
{
    let d = chars_of(device);
    let a = chars_of("/dev/mapper/");
    let b = chars_of("/dev/dm-");
    starts_with(&d, &a) || starts_with(&d, &b)
}

/// The partition identifier of the physical partition under the root file
/// system. The root has to be on a mapped device.
pub fn detect_partuuid(info: &SystemInfo) -> (r: Result<String, DetectError>)
    ensures
        match r {
            Ok(id) => info.root_partuuid() == Ok::<Seq<char>, DetectError>(id@),
            Err(e) => info.root_partuuid() == Err::<Seq<char>, DetectError>(e),
        },
{
    let root = match get_root_device(info) {
        Ok(root) => root,
        Err(e) => {
            return Err(DetectError::Resolution(e));
        },
    };
    if !mapped_device(root.as_str()) {
        return Err(DetectError::NotMapped);
    }
    let physical = match trace_to_physical_partition(info, root.as_str()) {
        Ok(p) => p,
        Err(e) => {
            return Err(DetectError::Resolution(e));
        },
    };
    match get_partuuid(info, physical.as_str()) {
        Ok(id) => Ok(id),
        Err(e) => Err(DetectError::Resolution(e)),
    }
}


/// A link points at a target.
pub open spec fn points_at(link: IdLink, target: Seq<char>) -> bool {
    link.target matches Some(t) && t@ == target
}

proof fn lemma_node_from(nodes: Seq<BlockDeviceNode>, name: Seq<char>, from: int)
    requires
        0 <= from <= nodes.len(),
    ensures
        node_from(nodes, name, from) matches Some(i) ==> from <= i < nodes.len() && nodes[i].name@
            == name,
    decreases nodes.len() - from,
{
    if from < nodes.len() && nodes[from].name@ != name {
        lemma_node_from(nodes, name, from + 1);
    }
}

/// The names of distinct devices that all have a record are no more than
/// there are records.
proof fn lemma_distinct_names_bounded(info: &SystemInfo, names: Seq<Seq<char>>)
    requires
        names.no_duplicates(),
        forall|i: int| 0 <= i < names.len() ==> info.node_named(#[trigger] names[i]) is Some,
    ensures
        names.len() <= info.block_devices@.len(),
{
    let nodes = info.block_devices@;
    let node_names = Seq::new(nodes.len(), |i: int| nodes[i].name@);
    names.unique_seq_to_set();
    node_names.lemma_cardinality_of_set();
    vstd::seq_lib::seq_to_set_is_finite(node_names);
    assert forall|n: Seq<char>| names.to_set().contains(n) implies node_names.to_set().contains(
        n,
    ) by {
        let i = choose|i: int| 0 <= i < names.len() && names[i] == n;
        lemma_node_from(nodes, names[i], 0);
        let at = node_from(nodes, names[i], 0).unwrap();
        assert(node_names[at] == n);
    }
    vstd::set_lib::lemma_len_subset(names.to_set(), node_names.to_set());
}

/// The walk knows no limit of depth but the return to a device it has
/// seen: where the devices seen have different names and each has a
/// record, and the next device is another one with a record, fewer devices
/// were seen than there are records.
pub proof fn lemma_depth_is_not_limited(info: &SystemInfo, cur: Seq<char>, seen: Seq<Seq<char>>)
    requires
        names_of(seen).no_duplicates(),
        forall|i: int| 0 <= i < seen.len() ==> info.node_named(device_name(#[trigger] seen[i])) is Some,
        !names_of(seen).contains(device_name(cur)),
        info.node_named(device_name(cur)) is Some,
    ensures
        seen.len() < info.block_devices@.len(),
{
    let names = names_of(seen.push(cur));
    assert forall|i: int, j: int| 0 <= i < names.len() && 0 <= j < names.len() && i != j implies names[i]
        != names[j] by {
        if i < seen.len() && j < seen.len() {
            assert(names_of(seen)[i] != names_of(seen)[j]);
        } else if i < seen.len() {
            assert(names_of(seen)[i] == names[i]);
        } else if j < seen.len() {
            assert(names_of(seen)[j] == names[j]);
        }
    }
    assert forall|i: int| 0 <= i < names.len() implies info.node_named(#[trigger] names[i]) is Some by {
        if i < seen.len() {
            assert(names[i] == device_name(seen[i]));
        }
    }
    lemma_distinct_names_bounded(info, names);
}

/// A device that has a record and no slaves is its own physical partition:
/// its chain is the device alone, by its canonical path.
pub proof fn lemma_terminal_device(info: &SystemInfo, path: Seq<char>)
    requires
        info.is_terminal(info.resolve(path)),
    ensures
        info.chain_of(path) == Some(seq![info.resolve(path)]),
{
    let cur = info.resolve(path);
    let seen = Seq::<Seq<char>>::empty();
    assert(names_of(seen) =~= Seq::<Seq<char>>::empty());
    assert(seen.push(cur) =~= seq![cur]);
}

/// The devices of `chain` are stacked: each but the last has a record and
/// slaves, the first of which is the next device of the chain.
pub open spec fn is_stack(info: &SystemInfo, chain: Seq<Seq<char>>) -> bool {
    forall|i: int| 0 <= i < chain.len() - 1 ==> info.leads_to(#[trigger] chain[i], chain[i + 1])
}

proof fn lemma_walk_stack(info: &SystemInfo, chain: Seq<Seq<char>>, k: int)
    requires
        0 <= k < chain.len(),
        names_of(chain).no_duplicates(),
        is_stack(info, chain),
        info.is_terminal(chain.last()),
    ensures
        info.walk(chain[k], chain.take(k)) == Some(chain),
    decreases chain.len() - k,
{
    let names = names_of(chain);
    let seen = chain.take(k);
    assert(!names_of(seen).contains(device_name(chain[k]))) by {
        if names_of(seen).contains(device_name(chain[k])) {
            let j = choose|j: int| 0 <= j < k && names_of(seen)[j] == device_name(chain[k]);
            assert(names[j] == names[k]);
        }
    }
    assert(seen.push(chain[k]) =~= chain.take(k + 1));
    if k == chain.len() - 1 {
        assert(chain.take(k + 1) =~= chain);
    } else {
        assert(info.leads_to(chain[k], chain[k + 1]));
        assert forall|i: int| 0 <= i < names.len() implies info.node_named(
            #[trigger] names[i],
        ) is Some by {
            if i < chain.len() - 1 {
                assert(info.leads_to(chain[i], chain[i + 1]));
            }
        }
        lemma_distinct_names_bounded(info, names);
        lemma_walk_stack(info, chain, k + 1);
    }
}

/// A stack of N virtual devices over a physical partition, all of different
/// names, resolves in N steps to the partition: the chain of its first
/// device is the whole stack, N + 1 devices, the partition last.
pub proof fn lemma_stack_resolves(info: &SystemInfo, path: Seq<char>, chain: Seq<Seq<char>>)
    requires
        chain.len() > 0,
        info.resolve(path) == chain[0],
        names_of(chain).no_duplicates(),
        is_stack(info, chain),
        info.is_terminal(chain.last()),
    ensures
        info.chain_of(path) == Some(chain),
{
    lemma_walk_stack(info, chain, 0);
    assert(chain.take(0) =~= Seq::<Seq<char>>::empty());
}

proof fn lemma_walk_broken(info: &SystemInfo, chain: Seq<Seq<char>>, next: Seq<char>, k: int)
    requires
        0 <= k < chain.len(),
        is_stack(info, chain),
        info.leads_to(chain.last(), next),
        names_of(chain).contains(device_name(next)) || info.node_named(device_name(next)) is None,
    ensures
        info.walk(chain[k], chain.take(k)) is None,
    decreases chain.len() - k,
{
    let seen = chain.take(k);
    assert(seen.push(chain[k]) =~= chain.take(k + 1));
    if names_of(seen).contains(device_name(chain[k])) {
    } else if seen.len() >= info.block_devices@.len() {
        if k < chain.len() - 1 {
            assert(info.leads_to(chain[k], chain[k + 1]));
        }
    } else if k == chain.len() - 1 {
        assert(chain.take(k + 1) =~= chain);
        assert(info.walk(next, chain) is None);
    } else {
        assert(info.leads_to(chain[k], chain[k + 1]));
        lemma_walk_broken(info, chain, next, k + 1);
    }
}

/// A stack of virtual devices whose last device is built on a device that
/// has no record, or on a device of the stack itself, does not resolve: the
/// walk ends without a chain.
pub proof fn lemma_broken_stack_fails(
    info: &SystemInfo,
    path: Seq<char>,
    chain: Seq<Seq<char>>,
    next: Seq<char>,
)
    requires
        chain.len() > 0,
        info.resolve(path) == chain[0],
        is_stack(info, chain),
        info.leads_to(chain.last(), next),
        names_of(chain).contains(device_name(next)) || info.node_named(device_name(next)) is None,
    ensures
        info.chain_of(path) is None,
{
    lemma_walk_broken(info, chain, next, 0);
    assert(chain.take(0) =~= Seq::<Seq<char>>::empty());
}

/// A device without a record does not resolve.
pub proof fn lemma_missing_record_fails(info: &SystemInfo, path: Seq<char>)
    requires
        info.node_named(device_name(info.resolve(path))) is None,
    ensures
        info.chain_of(path) is None,
{
}

/// What `link_from` finds is the name of the first link that points at the
/// target; it finds nothing exactly if no link points at it.
pub proof fn lemma_first_link(links: Seq<IdLink>, target: Seq<char>, from: int)
    requires
        0 <= from <= links.len(),
    ensures
        match link_from(links, target, from) {
            Some(id) => exists|i: int|
                from <= i < links.len() && points_at(#[trigger] links[i], target) && links[i].name@
                    == id && forall|j: int| from <= j < i ==> !points_at(#[trigger] links[j], target),
            None => forall|i: int| from <= i < links.len() ==> !points_at(#[trigger] links[i], target),
        },
    decreases links.len() - from,
{
    if from < links.len() {
        if points_at(links[from], target) {
            assert(points_at(links[from], target) && links[from].name@ == links[from].name@);
        } else {
            lemma_first_link(links, target, from + 1);
            match link_from(links, target, from + 1) {
                Some(id) => {
                    let i = choose|i: int|
                        from + 1 <= i < links.len() && points_at(#[trigger] links[i], target)
                            && links[i].name@ == id && forall|j: int|
                            from + 1 <= j < i ==> !points_at(#[trigger] links[j], target);
                    assert forall|j: int| from <= j < i implies !points_at(
                        #[trigger] links[j],
                        target,
                    ) by {}
                    assert(points_at(links[i], target));
                },
                None => {},
            }
        }
    }
}

/// The stable identifier of a device is the name of a link whose target is
/// the canonical path of the device, and of the first such link; and where
/// the directory exists and the device resolves, there is no identifier
/// exactly if no link points at the device.
pub proof fn lemma_stable_id(info: &SystemInfo, device: Seq<char>, namespace: IdNamespace)
    requires
        info.links_of(namespace) is Some,
        info.canonical_of(device) is Some,
    ensures
        match info.stable_id(device, namespace) {
            Ok(id) => exists|i: int|
                0 <= i < info.links_of(namespace).unwrap().len() && points_at(
                    #[trigger] info.links_of(namespace).unwrap()[i],
                    info.canonical_of(device).unwrap(),
                ) && info.links_of(namespace).unwrap()[i].name@ == id,
            Err(e) => e == DeviceResolutionError::IdNotFound && forall|i: int|
                0 <= i < info.links_of(namespace).unwrap().len() ==> !points_at(
                    #[trigger] info.links_of(namespace).unwrap()[i],
                    info.canonical_of(device).unwrap(),
                ),
        },
{
    lemma_first_link(info.links_of(namespace).unwrap(), info.canonical_of(device).unwrap(), 0);
}

} // verus!
