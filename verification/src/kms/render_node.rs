//! The render node that belongs to a card.
//!
//! A card and its render node hang below one device. The node is looked up in
//! sysfs; failing that, among all render nodes the one with the same parent
//! device is taken. No node is hard-wired: with several GPUs that would be the
//! wrong one.

use vstd::prelude::*;
use vstd::string::*;

use crate::strings;
use crate::strings::{append_decimal, is_before, starts_with};

verus! {

/// The major number in a device number.
pub open spec fn major_of(rdev: u64) -> u32 {
    (((rdev & 0x0000_0000_000f_ff00) >> 8) | ((rdev & 0xffff_f000_0000_0000) >> 32)) as u32
}

/// The minor number in a device number.
pub open spec fn minor_of(rdev: u64) -> u32 {
    ((rdev & 0x0000_0000_0000_00ff) | ((rdev & 0x0000_0fff_fff0_0000) >> 12)) as u32
}

/// `libc::major`: twelve bits above the lowest eight, and the top twenty.
#[verifier::external_body]
fn libc_major(rdev: u64) -> (r: u32)
    ensures
        r == major_of(rdev),
{
    libc::major(rdev)
}

/// `libc::minor`: the lowest eight bits, and twenty-four in the middle.
#[verifier::external_body]
fn libc_minor(rdev: u64) -> (r: u32)
    ensures
        r == minor_of(rdev),
{
    libc::minor(rdev)
}

/// The major and minor number of a device.
pub fn device_numbers(rdev: u64) -> (r: (u32, u32))
    ensures
        r == (major_of(rdev), minor_of(rdev)),
{
    (libc_major(rdev), libc_minor(rdev))
}

/// Major and minor number identify a device.
pub proof fn lemma_device_numbers_identify(a: u64, b: u64)
    requires
        major_of(a) == major_of(b),
        minor_of(a) == minor_of(b),
    ensures
        a == b,
{
    assert((((a & 0x0000_0000_000f_ff00) >> 8) | ((a & 0xffff_f000_0000_0000) >> 32)) as u32 == (((b
        & 0x0000_0000_000f_ff00) >> 8) | ((b & 0xffff_f000_0000_0000) >> 32)) as u32 && ((a
        & 0x0000_0000_0000_00ff) | ((a & 0x0000_0fff_fff0_0000) >> 12)) as u32 == ((b
        & 0x0000_0000_0000_00ff) | ((b & 0x0000_0fff_fff0_0000) >> 12)) as u32 ==> a == b)
        by (bit_vector);
}

/// The directory of a character device in sysfs.
pub open spec fn sysfs_device(major: u32, minor: u32) -> Seq<char> {
    "/sys/dev/char/"@ + strings::decimal(major as nat) + ":"@ + strings::decimal(minor as nat)
        + "/device"@
}

/// The link in sysfs from a character device to its parent device.
pub fn sysfs_device_path(card_dev: (u32, u32)) -> (r: String)
    ensures
        r@ == sysfs_device(card_dev.0, card_dev.1),
{
    let mut path: String = String::new();
    path.append("/sys/dev/char/");
    append_decimal(&mut path, card_dev.0);
    path.append(":");
    append_decimal(&mut path, card_dev.1);
    path.append("/device");
    assert(path@ =~= sysfs_device(card_dev.0, card_dev.1));
    path
}

/// The directory in sysfs that lists the DRM nodes of a card's device.
pub fn sysfs_drm_path(card_dev: (u32, u32)) -> (r: String)
    ensures
        r@ == sysfs_device(card_dev.0, card_dev.1) + "/drm"@,
{
    let mut path = sysfs_device_path(card_dev);
    path.append("/drm");
    path
}

/// Whether a directory entry is a render node.
pub open spec fn is_render_node(name: Seq<char>) -> bool {
    strings::has_prefix(name, "renderD"@)
}

/// Where a DRM node is.
pub open spec fn node_path(name: Seq<char>) -> Seq<char> {
    "/dev/dri/"@ + name
}

fn make_node_path(name: &str) -> (r: String)
    ensures
        r@ == node_path(name@),
{
    let mut path: String = String::new();
    path.append("/dev/dri/");
    path.append(name);
    assert(path@ =~= node_path(name@));
    path
}

pub open spec fn name_views(names: Seq<String>) -> Seq<Seq<char>> {
    names.map_values(|s: String| s@)
}

/// The first render node of a listing at or after entry `i`.
pub open spec fn first_render_node(names: Seq<Seq<char>>, i: int) -> Option<Seq<char>>
    decreases names.len() - i,
{
    if i >= names.len() {
        None
    } else if is_render_node(names[i]) {
        Some(names[i])
    } else {
        first_render_node(names, i + 1)
    }
}

/// Picks the render node out of what sysfs lists for a card, by the path of its
/// device file.
pub fn render_node_path_via_sysfs(entries: &Vec<String>) -> (r: Option<String>)
    ensures
        match r {
            Some(path) => first_render_node(name_views(entries@), 0) is Some && path@ == node_path(
                first_render_node(name_views(entries@), 0)->0,
            ),
            None => first_render_node(name_views(entries@), 0) is None,
        },
{
    let n: usize = entries.len();
    let ghost views = name_views(entries@);
    for i in 0..n
        invariant
            n == entries@.len(),
            views == name_views(entries@),
            first_render_node(views, 0) == first_render_node(views, i as int),
    {
        assert(views[i as int] == entries@[i as int]@);
        if starts_with(entries[i].as_str(), "renderD") {
            return Some(make_node_path(entries[i].as_str()));
        }
    }
    None
}

/// A node in `/dev/dri` and the parent device that sysfs gives for it, if it
/// could be found out.
#[derive(Clone, Debug)]
pub struct NodeCandidate {
    pub name: String,
    pub parent: Option<String>,
}

pub open spec fn text_of(s: Option<String>) -> Option<Seq<char>> {
    match s {
        Some(s) => Some(s@),
        None => None,
    }
}

/// Whether the node is a render node with this parent device.
pub open spec fn is_sibling(c: NodeCandidate, parent: Option<Seq<char>>) -> bool {
    &&& is_render_node(c.name@)
    &&& parent is Some
    &&& text_of(c.parent) == parent
}

fn same_text(a: &Option<String>, b: &Option<String>) -> (r: bool)
    ensures
        r == (text_of(*a) is Some && text_of(*a) == text_of(*b)),
{
    match (a, b) {
        (Some(a), Some(b)) => *a == *b,
        _ => false,
    }
}

/// Whether entry `i` comes first by name among those entries for which `fits`
/// holds.
pub open spec fn is_first_by_name(
    nodes: Seq<NodeCandidate>,
    fits: spec_fn(NodeCandidate) -> bool,
    i: int,
) -> bool {
    &&& 0 <= i < nodes.len()
    &&& fits(nodes[i])
    &&& forall|j: int|
        0 <= j < nodes.len() && fits(#[trigger] nodes[j]) ==> !strings::before(
            nodes[j].name@,
            nodes[i].name@,
        )
}

/// Picks a render node out of `/dev/dri`: the first by name that has the card's
/// parent device, or else the first of all.
pub fn render_node_path_via_dev_walk(nodes: &Vec<NodeCandidate>, card_parent: &Option<String>) -> (
r: Option<String>)
    ensures
        ({
            let siblings = |c: NodeCandidate| is_sibling(c, text_of(*card_parent));
            let all = |c: NodeCandidate| is_render_node(c.name@);
            match r {
                Some(path) => exists|i: int|
                    0 <= i < nodes@.len() && path@ == node_path((#[trigger] nodes@[i]).name@) && (
                    is_first_by_name(nodes@, siblings, i) || is_first_by_name(nodes@, all, i)
                        && forall|j: int|
                        0 <= j < nodes@.len() ==> !siblings(#[trigger] nodes@[j])),
                None => forall|j: int| 0 <= j < nodes@.len() ==> !all(#[trigger] nodes@[j]),
            }
        }),
{
    let ghost siblings = |c: NodeCandidate| is_sibling(c, text_of(*card_parent));
    let ghost all = |c: NodeCandidate| is_render_node(c.name@);
    let n: usize = nodes.len();
    let mut best: Option<usize> = None;
    let mut first: Option<usize> = None;
    for i in 0..n
        invariant
            n == nodes@.len(),
            siblings == (|c: NodeCandidate| is_sibling(c, text_of(*card_parent))),
            all == (|c: NodeCandidate| is_render_node(c.name@)),
            match best {
                Some(b) => b < i && is_first_by_name(nodes@.take(i as int), siblings, b as int),
                None => forall|j: int| 0 <= j < i ==> !siblings(#[trigger] nodes@[j]),
            },
            match first {
                Some(f) => f < i && is_first_by_name(nodes@.take(i as int), all, f as int),
                None => forall|j: int| 0 <= j < i ==> !all(#[trigger] nodes@[j]),
            },
    {
        let ghost before = nodes@.take(i as int);
        let ghost after = nodes@.take(i + 1);
        assert forall|j: int| 0 <= j < i implies #[trigger] after[j] == before[j] by {}
        let render = starts_with(nodes[i].name.as_str(), "renderD");
        let sibling = render && same_text(card_parent, &nodes[i].parent);
        assert(render == all(nodes@[i as int]));
        assert(sibling == siblings(nodes@[i as int]));
        let ghost b0 = best;
        let ghost f0 = first;
        if sibling {
            best = match best {
                Some(b) => if is_before(nodes[i].name.as_str(), nodes[b].name.as_str()) {
                    Some(i)
                } else {
                    Some(b)
                },
                None => Some(i),
            };
        }
        if render {
            first = match first {
                Some(f) => if is_before(nodes[i].name.as_str(), nodes[f].name.as_str()) {
                    Some(i)
                } else {
                    Some(f)
                },
                None => Some(i),
            };
        }
        proof {
            lemma_first_by_name_step(nodes@, siblings, i as int, b0, best);
            lemma_first_by_name_step(nodes@, all, i as int, f0, first);
        }
    }
    assert(nodes@.take(n as int) =~= nodes@);
    match best {
        Some(b) => {
            assert(is_first_by_name(nodes@, siblings, b as int));
            Some(make_node_path(nodes[b].name.as_str()))
        },
        None => match first {
            Some(f) => Some(make_node_path(nodes[f].name.as_str())),
            None => None,
        },
    }
}

/// One more entry in the search for the first by name.
proof fn lemma_first_by_name_step(
    nodes: Seq<NodeCandidate>,
    fits: spec_fn(NodeCandidate) -> bool,
    i: int,
    old_best: Option<usize>,
    best: Option<usize>,
)
    requires
        0 <= i < nodes.len(),
        match old_best {
            Some(b) => b < i && is_first_by_name(nodes.take(i), fits, b as int),
            None => forall|j: int| 0 <= j < i ==> !fits(#[trigger] nodes[j]),
        },
        best == (if !fits(nodes[i]) {
            old_best
        } else {
            match old_best {
                Some(b) => if strings::before(nodes[i].name@, nodes[b as int].name@) {
                    Some(i as usize)
                } else {
                    Some(b)
                },
                None => Some(i as usize),
            }
        }),
        i <= usize::MAX,
    ensures
        match best {
            Some(b) => b < i + 1 && is_first_by_name(nodes.take(i + 1), fits, b as int),
            None => forall|j: int| 0 <= j < i + 1 ==> !fits(#[trigger] nodes[j]),
        },
{
    let before = nodes.take(i);
    let after = nodes.take(i + 1);
    assert forall|j: int| 0 <= j < i implies #[trigger] after[j] == before[j] by {}
    if let Some(b) = best {
        assert forall|j: int| 0 <= j < after.len() && fits(#[trigger] after[j]) implies !strings::before(
            after[j].name@,
            after[b as int].name@,
        ) by {
            strings::lemma_before_is_an_order(after[j].name@, after[j].name@);
            if j < i {
                assert(fits(before[j]));
                if let Some(o) = old_best {
                    assert(!strings::before(before[j].name@, before[o as int].name@));
                    if b == i {
                        if strings::before(after[j].name@, after[i].name@) {
                            strings::lemma_before_is_transitive(
                                after[j].name@,
                                after[i].name@,
                                before[o as int].name@,
                            );
                        }
                    }
                } else {
                    assert(!fits(nodes[j]));
                }
            }
        }
    }
}

/// The render node of a listing is the first entry that is one.
pub proof fn lemma_first_render_node_is_taken(names: Seq<Seq<char>>, i: int)
    requires
        0 <= i <= names.len(),
    ensures
        match first_render_node(names, i) {
            Some(name) => exists|k: int| #![trigger names[k]]
                i <= k < names.len() && names[k] == name && is_render_node(name) && forall|j: int|
                    i <= j < k ==> !is_render_node(#[trigger] names[j]),
            None => forall|j: int| i <= j < names.len() ==> !is_render_node(#[trigger] names[j]),
        },
    decreases names.len() - i,
{
    if i < names.len() {
        if is_render_node(names[i]) {
            assert(names[i] == first_render_node(names, i)->0);
        } else {
            lemma_first_render_node_is_taken(names, i + 1);
            if first_render_node(names, i + 1) is Some {
                let k = choose|k: int| #![trigger names[k]]
                    i + 1 <= k < names.len() && names[k] == first_render_node(names, i + 1)->0
                        && is_render_node(names[k]) && forall|j: int|
                        i + 1 <= j < k ==> !is_render_node(#[trigger] names[j]);
                assert(names[k] == first_render_node(names, i)->0);
            }
        }
    }
}

/// Names that start with `renderD` are render nodes, and others are not; a node is
/// found under its name in the directory of DRM devices.
pub proof fn lemma_render_nodes_go_by_name(rest: Seq<char>, name: Seq<char>)
    ensures
        is_render_node(seq!['r', 'e', 'n', 'd', 'e', 'r', 'D'] + rest),
        is_render_node(name) ==> name.len() >= 7 && name.take(7) == seq![
            'r', 'e', 'n', 'd', 'e', 'r', 'D',
        ],
        node_path(name).len() == 9 + name.len(),
        node_path(name).take(9) == seq!['/', 'd', 'e', 'v', '/', 'd', 'r', 'i', '/'],
        node_path(name).skip(9) == name,
{
    reveal_strlit("renderD");
    reveal_strlit("/dev/dri/");
    let p = seq!['r', 'e', 'n', 'd', 'e', 'r', 'D'];
    assert("renderD"@ =~= p);
    assert((p + rest).take(7) =~= p);
    assert(node_path(name).take(9) =~= seq!['/', 'd', 'e', 'v', '/', 'd', 'r', 'i', '/']);
    assert(node_path(name).skip(9) =~= name);
}

/// The link to the parent of a device is found by its major number, a colon and its minor
/// number, in decimal.
pub proof fn lemma_devices_go_by_their_numbers(major: u32, minor: u32)
    ensures
        ({
            let s = sysfs_device(major, minor);
            let (a, b) = (strings::decimal(major as nat), strings::decimal(minor as nat));
            &&& s.len() == 14 + a.len() + 1 + b.len() + 7
            &&& s.take(14) == seq![
                '/', 's', 'y', 's', '/', 'd', 'e', 'v', '/', 'c', 'h', 'a', 'r', '/',
            ]
            &&& s.subrange(14, 14 + a.len() as int) == a
            &&& s[14 + a.len() as int] == ':'
            &&& s.subrange(15 + a.len() as int, 15 + a.len() + b.len() as int) == b
            &&& s.skip(15 + a.len() + b.len() as int) == seq!['/', 'd', 'e', 'v', 'i', 'c', 'e']
        }),
{
    reveal_strlit("/sys/dev/char/");
    reveal_strlit(":");
    reveal_strlit("/device");
    let s = sysfs_device(major, minor);
    let (a, b) = (strings::decimal(major as nat), strings::decimal(minor as nat));
    assert(s.take(14) =~= seq![
        '/', 's', 'y', 's', '/', 'd', 'e', 'v', '/', 'c', 'h', 'a', 'r', '/',
    ]);
    assert(s.subrange(14, 14 + a.len() as int) =~= a);
    assert(s.subrange(15 + a.len() as int, 15 + a.len() + b.len() as int) =~= b);
    assert(s.skip(15 + a.len() + b.len() as int) =~= seq!['/', 'd', 'e', 'v', 'i', 'c', 'e']);
}

/// A render node is a sibling of the card if both have a parent and it is the same one.
pub proof fn lemma_siblings_share_a_parent(c: NodeCandidate, parent: Option<Seq<char>>)
    ensures
        is_sibling(c, parent) <==> is_render_node(c.name@) && c.parent is Some && parent is Some
            && c.parent->0@ == parent->0,
{
}

/// The major number has the bits 8 to 19 of a device number and those from 44 on; the minor
/// number has the lowest eight and those from 20 to 43.
pub proof fn lemma_device_numbers_split(rdev: u64)
    ensures
        major_of(rdev) == rdev / 0x100 % 0x1000 + 0x1000 * (rdev / 0x1000_0000_0000),
        minor_of(rdev) == rdev % 0x100 + 0x100 * (rdev / 0x10_0000 % 0x100_0000),
{
    assert((((rdev & 0x0000_0000_000f_ff00) >> 8) | ((rdev & 0xffff_f000_0000_0000) >> 32)) as u32
        == rdev / 0x100 % 0x1000 + 0x1000 * (rdev / 0x1000_0000_0000)) by (bit_vector);
    assert(((rdev & 0x0000_0000_0000_00ff) | ((rdev & 0x0000_0fff_fff0_0000) >> 12)) as u32 == rdev
        % 0x100 + 0x100 * (rdev / 0x10_0000 % 0x100_0000)) by (bit_vector);
}

} // verus!
