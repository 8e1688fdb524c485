//! Rebuilding a full path from an NTFS file reference number by walking
//! parent references up to the volume root.

use vstd::prelude::*;
use crate::text::{append_chars, chars_of, seq_eq, string_of};

verus! {

/// Longest parent chain followed before giving up.
pub const MAX_PATH_DEPTH: usize = 1024;

/// One entry of the parent graph.
#[derive(Debug)]
pub struct PathNode {
    pub frn: u64,
    pub parent_frn: u64,
    pub name: String,
}

/// The outcome of walking a file's parent chain.
#[derive(Debug)]
pub enum PathResolution {
    Resolved(String),
    /// A parent the graph does not hold.
    Orphaned { missing_frn: u64 },
    /// The chain came back to `frn`.
    Cycle { frn: u64 },
    /// The chain is longer than `MAX_PATH_DEPTH`.
    DepthExceeded,
}

pub enum ResolutionView {
    Resolved(Seq<char>),
    Orphaned(u64),
    Cycle(u64),
    DepthExceeded,
}

impl View for PathResolution {
    type V = ResolutionView;

    open spec fn view(&self) -> ResolutionView {
        match self {
            PathResolution::Resolved(p) => ResolutionView::Resolved(p@),
            PathResolution::Orphaned { missing_frn } => ResolutionView::Orphaned(*missing_frn),
            PathResolution::Cycle { frn } => ResolutionView::Cycle(*frn),
            PathResolution::DepthExceeded => ResolutionView::DepthExceeded,
        }
    }
}

/// The first node of the graph with this reference number.
pub open spec fn lookup_node(nodes: Seq<PathNode>, frn: u64) -> Option<PathNode>
    decreases nodes.len(),
{
    if nodes.len() == 0 {
        None
    } else if nodes[0].frn == frn {
        Some(nodes[0])
    } else {
        lookup_node(nodes.drop_first(), frn)
    }
}

/// A bare drive such as `C:`: a path that is only a drive prefix.
pub open spec fn bare_drive(base: Seq<char>) -> bool {
    base.len() == 2 && (('a' <= base[0] && base[0] <= 'z') || ('A' <= base[0] && base[0] <= 'Z'))
        && base[1] == ':'
}

/// `base` followed by one more component, as a Windows path joins them: a
/// `\` between them unless `base` is empty, already ends in a separator, or
/// is a bare drive (`C:` and `x` give the drive-relative `C:x`).
pub open spec fn join_component(base: Seq<char>, c: Seq<char>) -> Seq<char> {
    if base.len() == 0 || base.last() == '\\' || base.last() == '/' || bare_drive(base) {
        base + c
    } else {
        base + seq!['\\'] + c
    }
}

/// `base` followed by the components from last to first.
pub open spec fn join_reversed(base: Seq<char>, comps: Seq<Seq<char>>) -> Seq<char>
    decreases comps.len(),
{
    if comps.len() == 0 {
        base
    } else {
        join_reversed(join_component(base, comps.last()), comps.drop_last())
    }
}

/// Whether a node's name is a path component (the root is named `.`).
pub open spec fn is_component(name: Seq<char>) -> bool {
    name.len() > 0 && name != seq!['.']
}

/// The walk from `current`, with `seen` the references visited and `comps`
/// the names collected so far (innermost first), for at most `fuel` more
/// steps. The root is the node that is its own parent.
pub open spec fn walk(
    nodes: Seq<PathNode>,
    mount: Seq<char>,
    current: u64,
    seen: Seq<u64>,
    comps: Seq<Seq<char>>,
    fuel: nat,
) -> ResolutionView
    decreases fuel,
{
    if fuel == 0 {
        ResolutionView::DepthExceeded
    } else if seen.contains(current) {
        ResolutionView::Cycle(current)
    } else {
        match lookup_node(nodes, current) {
            None => ResolutionView::Orphaned(current),
            Some(n) => if n.parent_frn == n.frn {
                ResolutionView::Resolved(join_reversed(mount, comps))
            } else {
                walk(
                    nodes,
                    mount,
                    n.parent_frn,
                    seen.push(current),
                    if is_component(n.name@) {
                        comps.push(n.name@)
                    } else {
                        comps
                    },
                    (fuel - 1) as nat,
                )
            },
        }
    }
}

fn find_node(nodes: &[PathNode], frn: u64) -> (r: Option<usize>)
    ensures
        match r {
            Some(i) => i < nodes@.len() && lookup_node(nodes@, frn) == Some(nodes@[i as int]),
            None => lookup_node(nodes@, frn) is None,
        },
{
    let mut i: usize = 0;
    assert(nodes@.skip(0) =~= nodes@);
    while i < nodes.len()
        invariant
            i <= nodes@.len(),
            lookup_node(nodes@, frn) == lookup_node(nodes@.skip(i as int), frn),
        decreases nodes@.len() - i,
    {
        assert(nodes@.skip(i as int)[0] == nodes@[i as int]);
        if nodes[i].frn == frn {
            return Some(i);
        }
        assert(nodes@.skip(i as int).drop_first() =~= nodes@.skip(i + 1));
        i += 1;
    }
    None
}

fn join_path(mount: &str, comps: &Vec<Vec<char>>) -> (r: String)
    ensures
        r@ == join_reversed(mount@, comps@.map_values(|c: Vec<char>| c@)),
{
    let ghost cv = comps@.map_values(|c: Vec<char>| c@);
    let mut out = chars_of(mount);
    let mut k = comps.len();
    assert(cv.take(k as int) =~= cv);
    while k > 0
        invariant
            k <= comps@.len(),
            cv == comps@.map_values(|c: Vec<char>| c@),
            join_reversed(mount@, cv) == join_reversed(out@, cv.take(k as int)),
        decreases k,
    {
        let c = &comps[k - 1];
        proof {
            assert(cv.take(k as int).last() == c@);
            assert(cv.take(k as int).drop_last() =~= cv.take(k - 1));
        }
        let ghost before = out@;
        let bare = out.len() == 2 && (('a' <= out[0] && out[0] <= 'z') || ('A' <= out[0] && out[0] <= 'Z'))
            && out[1] == ':';
        if !(out.len() == 0 || out[out.len() - 1] == '\\' || out[out.len() - 1] == '/' || bare) {
            out.push('\\');
        }
        append_chars(&mut out, c.as_slice());
        assert(out@ =~= join_component(before, c@));
        k -= 1;
    }
    string_of(out.as_slice())
}

/// The full path of `start_frn` under `mount_path`, found by following
/// parent references through `nodes` (see `walk`).
pub fn resolve_path(start_frn: u64, mount_path: &str, nodes: &[PathNode]) -> (r: PathResolution)
    ensures
        r@ == walk(nodes@, mount_path@, start_frn, seq![], seq![], MAX_PATH_DEPTH as nat),
{
    let mut current = start_frn;
    let mut seen: Vec<u64> = Vec::new();
    let mut comps: Vec<Vec<char>> = Vec::new();
    let mut steps: usize = 0;
    assert(comps@.map_values(|c: Vec<char>| c@) =~= seq![]);
    assert(seen@ =~= seq![]);
    while steps < MAX_PATH_DEPTH
        invariant
            steps <= MAX_PATH_DEPTH,
            walk(nodes@, mount_path@, start_frn, seq![], seq![], MAX_PATH_DEPTH as nat) == walk(
                nodes@,
                mount_path@,
                current,
                seen@,
                comps@.map_values(|c: Vec<char>| c@),
                (MAX_PATH_DEPTH - steps) as nat,
            ),
        decreases MAX_PATH_DEPTH - steps,
    {
        let mut j: usize = 0;
        while j < seen.len()
            invariant
                j <= seen@.len(),
                forall|k: int| 0 <= k < j ==> seen@[k] != current,
            ensures
                j <= seen@.len(),
                j < seen@.len() ==> seen@[j as int] == current,
                forall|k: int| 0 <= k < j ==> seen@[k] != current,
            decreases seen@.len() - j,
        {
            if seen[j] == current {
                break;
            }
            j += 1;
        }
        if j < seen.len() {
            assert(seen@.contains(current));
            return PathResolution::Cycle { frn: current };
        }
        assert(!seen@.contains(current));
        let i = match find_node(nodes, current) {
            None => {
                return PathResolution::Orphaned { missing_frn: current };
            },
            Some(i) => i,
        };
        let node = &nodes[i];
        if node.parent_frn == node.frn {
            return PathResolution::Resolved(join_path(mount_path, &comps));
        }
        let ghost cv = comps@.map_values(|c: Vec<char>| c@);
        let name = chars_of(node.name.as_str());
        let dot = chars_of(".");
        proof {
            reveal_strlit(".");
            assert(dot@ =~= seq!['.']);
        }
        if name.len() > 0 && !seq_eq(name.as_slice(), dot.as_slice()) {
            comps.push(name);
            assert(comps@.map_values(|c: Vec<char>| c@) =~= cv.push(node.name@));
        }
        seen.push(current);
        current = node.parent_frn;
        steps += 1;
    }
    PathResolution::DepthExceeded
}

/// What a parent walk asks of its caller next.
#[derive(Debug)]
pub enum WalkStep {
    /// Look up this reference number and hand the node (if any) to `answer`.
    Lookup(u64),
    /// The walk is over.
    Finished(PathResolution),
}

/// The parent walk of `resolve_path` with the lookups left to the caller
/// (the catalog reads each node from its database on demand): each
/// reference is asked for once, in chain order, at most `MAX_PATH_DEPTH`
/// times, and the first missing, repeated or root node decides the outcome.
pub struct ParentWalk {
    mount: String,
    current: u64,
    seen: Vec<u64>,
    comps: Vec<Vec<char>>,
    steps: usize,
}

impl ParentWalk {
    pub closed spec fn mount(&self) -> Seq<char> {
        self.mount@
    }

    /// The reference the walk stands at.
    pub closed spec fn current(&self) -> u64 {
        self.current
    }

    /// The references looked up so far, in order.
    pub closed spec fn seen(&self) -> Seq<u64> {
        self.seen@
    }

    /// The names collected so far, innermost first.
    pub closed spec fn comps(&self) -> Seq<Seq<char>> {
        self.comps@.map_values(|c: Vec<char>| c@)
    }

    /// Lookups still allowed.
    pub closed spec fn fuel(&self) -> nat {
        if self.steps <= MAX_PATH_DEPTH {
            (MAX_PATH_DEPTH - self.steps) as nat
        } else {
            0
        }
    }

    pub closed spec fn wf(&self) -> bool {
        &&& self.steps <= MAX_PATH_DEPTH
        &&& self.seen@.len() == self.steps
    }

    /// Where the walk would end, looking nodes up in `nodes`.
    pub open spec fn outcome(&self, nodes: Seq<PathNode>) -> ResolutionView {
        walk(nodes, self.mount(), self.current(), self.seen(), self.comps(), self.fuel())
    }

    pub fn new(start_frn: u64, mount_path: String) -> (r: Self)
        ensures
            r.wf(),
            r.mount() == mount_path@,
            r.current() == start_frn,
            r.seen() == Seq::<u64>::empty(),
            r.comps() == Seq::<Seq<char>>::empty(),
            r.fuel() == MAX_PATH_DEPTH,
    {
        let r = ParentWalk { mount: mount_path, current: start_frn, seen: Vec::new(), comps: Vec::new(), steps: 0 };
        assert(r.comps() =~= Seq::<Seq<char>>::empty());
        r
    }

    /// The next step: depth exhausted, a reference seen before (a cycle), or
    /// the lookup of the current reference.
    pub fn next_step(&self) -> (r: WalkStep)
        requires
            self.wf(),
        ensures
            self.fuel() == 0 ==> (r matches WalkStep::Finished(res) && res@ == ResolutionView::DepthExceeded),
            self.fuel() > 0 && self.seen().contains(self.current()) ==> (r matches WalkStep::Finished(res)
                && res@ == ResolutionView::Cycle(self.current())),
            self.fuel() > 0 && !self.seen().contains(self.current()) ==> r == WalkStep::Lookup(
                self.current(),
            ),
    {
        if self.steps >= MAX_PATH_DEPTH {
            return WalkStep::Finished(PathResolution::DepthExceeded);
        }
        let mut j: usize = 0;
        while j < self.seen.len()
            invariant
                j <= self.seen@.len(),
                self.steps < MAX_PATH_DEPTH,
                forall|k: int| 0 <= k < j ==> self.seen@[k] != self.current,
            decreases self.seen@.len() - j,
        {
            if self.seen[j] == self.current {
                assert(self.seen@.contains(self.current));
                return WalkStep::Finished(PathResolution::Cycle { frn: self.current });
            }
            j += 1;
        }
        WalkStep::Lookup(self.current)
    }

    /// Takes the node found for the current reference: none ends the walk
    /// orphaned, the root (its own parent) ends it resolved under the mount
    /// path, any other node moves the walk to its parent, collecting its name
    /// unless it is empty or `.`.
    pub fn answer(&mut self, node: Option<PathNode>) -> (r: Option<PathResolution>)
        requires
            old(self).wf(),
            old(self).fuel() > 0,
            !old(self).seen().contains(old(self).current()),
        ensures
            final(self).wf(),
            match node {
                None => r matches Some(res) && res@ == ResolutionView::Orphaned(old(self).current()),
                Some(n) => if n.parent_frn == n.frn {
                    r matches Some(res) && res@ == ResolutionView::Resolved(
                        join_reversed(old(self).mount(), old(self).comps()),
                    )
                } else {
                    &&& r is None
                    &&& final(self).current() == n.parent_frn
                    &&& final(self).seen() == old(self).seen().push(old(self).current())
                    &&& final(self).comps() == (if is_component(n.name@) {
                        old(self).comps().push(n.name@)
                    } else {
                        old(self).comps()
                    })
                    &&& final(self).fuel() == old(self).fuel() - 1
                    &&& final(self).mount() == old(self).mount()
                },
            },
    {
        match node {
            None => Some(PathResolution::Orphaned { missing_frn: self.current }),
            Some(n) => {
                if n.parent_frn == n.frn {
                    return Some(PathResolution::Resolved(join_path(self.mount.as_str(), &self.comps)));
                }
                let ghost cv = self.comps@.map_values(|c: Vec<char>| c@);
                let name = chars_of(n.name.as_str());
                let dot = chars_of(".");
                proof {
                    reveal_strlit(".");
                    assert(dot@ =~= seq!['.']);
                }
                if name.len() > 0 && !seq_eq(name.as_slice(), dot.as_slice()) {
                    self.comps.push(name);
                    assert(self.comps@.map_values(|c: Vec<char>| c@) =~= cv.push(n.name@));
                }
                self.seen.push(self.current);
                self.current = n.parent_frn;
                self.steps = self.steps + 1;
                None
            },
        }
    }
}

/// Answering each lookup from a node table walks exactly as `resolve_path`
/// does over that table: one step of the driven walk is one step of `walk`.
pub proof fn law_driven_walk_follows_the_table(w: ParentWalk, next: ParentWalk, nodes: Seq<PathNode>)
    requires
        w.fuel() > 0,
        !w.seen().contains(w.current()),
        match lookup_node(nodes, w.current()) {
            Some(n) => {
                &&& n.parent_frn != n.frn
                &&& next.current() == n.parent_frn
                &&& next.seen() == w.seen().push(w.current())
                &&& next.comps() == (if is_component(n.name@) {
                    w.comps().push(n.name@)
                } else {
                    w.comps()
                })
                &&& next.fuel() == w.fuel() - 1
                &&& next.mount() == w.mount()
            },
            None => false,
        },
    ensures
        w.outcome(nodes) == next.outcome(nodes),
{
}

} // verus!
