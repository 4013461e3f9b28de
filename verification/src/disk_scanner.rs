//! Disk usage trees: the limits a scan runs under, what each visited entry
//! becomes, and how a directory's node is assembled from its children's
//! (sizes and counts summed, children largest first, the list capped).
//!
//! Reading directories and metadata is the host's part; it walks the tree and
//! hands each level's results to these functions.

use vstd::prelude::*;
use vstd::multiset::Multiset;
use vstd::seq_lib::*;
use crate::tools::clamp;

verus! {

/// What a scan is asked for.
#[derive(Debug)]
pub struct DiskScanRequest {
    pub path: String,
    pub max_depth: Option<usize>,
    pub max_children: Option<usize>,
}

/// The limits a scan runs under.
#[derive(Debug)]
pub struct ScanOptions {
    /// Depth below which directories are summarized instead of expanded.
    pub max_depth: usize,
    /// Most children a directory node lists.
    pub max_children: usize,
}

impl DiskScanRequest {
    /// Depth 4 by default within 1..=12; 12 children by default within 1..=64.
    pub fn options(&self) -> (r: ScanOptions)
        ensures
            r.max_depth == clamp(
                match self.max_depth {
                    Some(d) => d as int,
                    None => 4,
                },
                1,
                12,
            ),
            r.max_children == clamp(
                match self.max_children {
                    Some(c) => c as int,
                    None => 12,
                },
                1,
                64,
            ),
    {
        let d = match self.max_depth {
            Some(d) => d,
            None => 4,
        };
        let c = match self.max_children {
            Some(c) => c,
            None => 12,
        };
        ScanOptions {
            max_depth: if d < 1 {
                1
            } else if d > 12 {
                12
            } else {
                d
            },
            max_children: if c < 1 {
                1
            } else if c > 64 {
                64
            } else {
                c
            },
        }
    }
}

/// One entry of a disk usage tree.
#[derive(Debug)]
pub struct DiskNode {
    pub name: String,
    pub path: String,
    pub is_dir: bool,
    pub size_bytes: u64,
    pub file_count: u64,
    pub dir_count: u64,
    /// The largest children, largest first.
    pub children: Vec<DiskNode>,
}

/// A finished scan.
#[derive(Debug)]
pub struct DiskScanResult {
    pub root: DiskNode,
    pub scanned_entries: u64,
    pub elapsed_ms: u128,
    pub truncated: bool,
    pub scanned_at: String,
}

/// What the scan does with an entry.
#[derive(PartialEq, Eq, Structural, Clone, Copy, Debug)]
pub enum ScanStep {
    /// A file: its own size, one file.
    File,
    /// Neither file nor directory (a link, a device): counted as nothing.
    Other,
    /// A directory at the depth limit: its whole subtree summarized.
    Summarize,
    /// A directory above the depth limit: its children scanned in turn.
    Descend,
}

/// The step for an entry at `depth` (the root is at 0).
pub fn scan_step(is_file: bool, is_dir: bool, depth: usize, options: &ScanOptions) -> (r: ScanStep)
    ensures
        r == (if is_file {
            ScanStep::File
        } else if !is_dir {
            ScanStep::Other
        } else if depth >= options.max_depth {
            ScanStep::Summarize
        } else {
            ScanStep::Descend
        }),
{
    if is_file {
        ScanStep::File
    } else if !is_dir {
        ScanStep::Other
    } else if depth >= options.max_depth {
        ScanStep::Summarize
    } else {
        ScanStep::Descend
    }
}

/// The node of a file of `size` bytes.
pub fn file_node(name: String, path: String, size: u64) -> (r: DiskNode)
    ensures
        r.name == name,
        r.path == path,
        !r.is_dir,
        r.size_bytes == size,
        r.file_count == 1,
        r.dir_count == 0,
        r.children@.len() == 0,
{
    DiskNode {
        name,
        path,
        is_dir: false,
        size_bytes: size,
        file_count: 1,
        dir_count: 0,
        children: Vec::new(),
    }
}

/// The node of an entry that is neither file nor directory.
pub fn other_node(name: String, path: String) -> (r: DiskNode)
    ensures
        r.name == name,
        r.path == path,
        !r.is_dir,
        r.size_bytes == 0,
        r.file_count == 0,
        r.dir_count == 0,
        r.children@.len() == 0,
{
    DiskNode {
        name,
        path,
        is_dir: false,
        size_bytes: 0,
        file_count: 0,
        dir_count: 0,
        children: Vec::new(),
    }
}

/// Totals over a directory subtree that is not expanded.
#[derive(Debug)]
pub struct DirSummary {
    pub size_bytes: u64,
    pub file_count: u64,
    pub dir_count: u64,
}

/// The kind of an entry met while summarizing.
#[derive(PartialEq, Eq, Structural, Clone, Copy, Debug)]
pub enum EntryKind {
    File,
    Dir,
    /// Anything else, or an entry whose metadata could not be read.
    Other,
}

impl DirSummary {
    /// Nothing counted yet.
    pub fn new() -> (r: DirSummary)
        ensures
            r.size_bytes == 0,
            r.file_count == 0,
            r.dir_count == 0,
    {
        DirSummary { size_bytes: 0, file_count: 0, dir_count: 0 }
    }

    /// Count one entry: a file adds its length (the total saturating at
    /// `u64::MAX`) and one file; a directory adds one directory (the
    /// subtree's own root among them); anything else adds nothing.
    pub fn add_entry(&mut self, kind: EntryKind, len: u64)
        requires
            old(self).file_count < u64::MAX,
            old(self).dir_count < u64::MAX,
        ensures
            kind == EntryKind::File ==> final(self).file_count == old(self).file_count + 1
                && final(self).size_bytes == (if old(self).size_bytes + len > u64::MAX {
                u64::MAX as int
            } else {
                old(self).size_bytes + len
            }) && final(self).dir_count == old(self).dir_count,
            kind == EntryKind::Dir ==> final(self).dir_count == old(self).dir_count + 1
                && final(self).file_count == old(self).file_count && final(self).size_bytes
                == old(self).size_bytes,
            kind == EntryKind::Other ==> *final(self) == *old(self),
    {
        match kind {
            EntryKind::File => {
                self.file_count = self.file_count + 1;
                self.size_bytes = self.size_bytes.saturating_add(len);
            },
            EntryKind::Dir => {
                self.dir_count = self.dir_count + 1;
            },
            EntryKind::Other => {},
        }
    }
}

/// The node of a directory at the depth limit, from its subtree's totals; it
/// lists no children and marks the scan truncated.
pub fn summary_node(name: String, path: String, summary: &DirSummary) -> (r: (DiskNode, bool))
    ensures
        r.0.name == name,
        r.0.path == path,
        r.0.is_dir,
        r.0.size_bytes == summary.size_bytes,
        r.0.file_count == summary.file_count,
        r.0.dir_count == summary.dir_count,
        r.0.children@.len() == 0,
        r.1,
{
    (
        DiskNode {
            name,
            path,
            is_dir: true,
            size_bytes: summary.size_bytes,
            file_count: summary.file_count,
            dir_count: summary.dir_count,
            children: Vec::new(),
        },
        true,
    )
}

/// Total size of `s`.
pub open spec fn total_size(s: Seq<DiskNode>) -> int
    decreases s.len(),
{
    if s.len() == 0 {
        0
    } else {
        total_size(s.drop_last()) + s.last().size_bytes
    }
}

/// Total file count of `s`.
pub open spec fn total_files(s: Seq<DiskNode>) -> int
    decreases s.len(),
{
    if s.len() == 0 {
        0
    } else {
        total_files(s.drop_last()) + s.last().file_count
    }
}

/// Total directory count of `s`.
pub open spec fn total_dirs(s: Seq<DiskNode>) -> int
    decreases s.len(),
{
    if s.len() == 0 {
        0
    } else {
        total_dirs(s.drop_last()) + s.last().dir_count
    }
}

/// A directory's totals add up over its children: the totals of two runs of
/// children together are the sums of their totals, and a single child adds
/// exactly its own size, file count and directory count (the whole of its
/// subtree, whether or not the child is itself a directory).
pub proof fn lemma_totals_add_up(a: Seq<DiskNode>, b: Seq<DiskNode>, x: DiskNode)
    ensures
        total_size(a + b) == total_size(a) + total_size(b),
        total_files(a + b) == total_files(a) + total_files(b),
        total_dirs(a + b) == total_dirs(a) + total_dirs(b),
        total_size(seq![x]) == x.size_bytes,
        total_files(seq![x]) == x.file_count,
        total_dirs(seq![x]) == x.dir_count,
        total_size(Seq::<DiskNode>::empty()) == 0,
        total_files(Seq::<DiskNode>::empty()) == 0,
        total_dirs(Seq::<DiskNode>::empty()) == 0,
    decreases b.len(),
{
    let one = seq![x];
    assert(one.drop_last() =~= Seq::<DiskNode>::empty());
    assert(one.last() == x);
    assert(total_size(one.drop_last()) == 0);
    assert(total_files(one.drop_last()) == 0);
    assert(total_dirs(one.drop_last()) == 0);
    if b.len() == 0 {
        assert(a + b =~= a);
    } else {
        lemma_totals_add_up(a, b.drop_last(), x);
        assert((a + b).drop_last() =~= a + b.drop_last());
        assert((a + b).last() == b.last());
    }
}

/// The first position in `s` at or after `i` whose size is below `v` (the
/// length when there is none).
pub open spec fn first_smaller(s: Seq<DiskNode>, v: u64, i: int) -> int
    decreases s.len() - i,
{
    if i >= s.len() {
        s.len() as int
    } else if s[i].size_bytes < v {
        i
    } else {
        first_smaller(s, v, i + 1)
    }
}

/// `x` placed into `s` after every entry at least as large.
pub open spec fn insert_desc(s: Seq<DiskNode>, x: DiskNode) -> Seq<DiskNode> {
    let p = first_smaller(s, x.size_bytes, 0);
    s.subrange(0, p) + seq![x] + s.subrange(p, s.len() as int)
}

/// `s` ordered by size, largest first, equal sizes in their original order
/// (what the stable `sort_by` on descending size gives).
pub open spec fn sort_desc(s: Seq<DiskNode>) -> Seq<DiskNode>
    decreases s.len(),
{
    if s.len() == 0 {
        Seq::empty()
    } else {
        insert_desc(sort_desc(s.drop_last()), s.last())
    }
}

/// Whether sizes never grow along `s`.
pub open spec fn size_descending(s: Seq<DiskNode>) -> bool {
    forall|i: int, j: int| 0 <= i < j < s.len() ==> s[i].size_bytes >= s[j].size_bytes
}

proof fn lemma_first_smaller(s: Seq<DiskNode>, v: u64, i: int)
    requires
        0 <= i <= s.len(),
    ensures
        i <= first_smaller(s, v, i) <= s.len(),
        forall|k: int| i <= k < first_smaller(s, v, i) ==> s[k].size_bytes >= v,
        first_smaller(s, v, i) < s.len() ==> s[first_smaller(s, v, i)].size_bytes < v,
    decreases s.len() - i,
{
    if i < s.len() && s[i].size_bytes >= v {
        lemma_first_smaller(s, v, i + 1);
    }
}

proof fn lemma_insert_desc(s: Seq<DiskNode>, x: DiskNode)
    requires
        size_descending(s),
    ensures
        size_descending(insert_desc(s, x)),
        insert_desc(s, x).to_multiset() == s.to_multiset().insert(x),
        insert_desc(s, x).len() == s.len() + 1,
{
    broadcast use group_to_multiset_ensures;
    broadcast use vstd::multiset::group_multiset_axioms;

    let p = first_smaller(s, x.size_bytes, 0);
    lemma_first_smaller(s, x.size_bytes, 0);
    let pre = s.subrange(0, p);
    let post = s.subrange(p, s.len() as int);
    let r = insert_desc(s, x);
    assert(r == pre + seq![x] + post);
    assert forall|i: int, j: int| 0 <= i < j < r.len() implies r[i].size_bytes >= r[j].size_bytes by {
        if j < p {
            assert(r[i] == s[i] && r[j] == s[j]);
        } else if j == p {
            assert(r[j] == x);
            assert(r[i] == s[i]);
        } else if i < p {
            assert(r[i] == s[i]);
            assert(r[j] == s[j - 1]);
            assert(s[i].size_bytes >= s[j - 1].size_bytes);
        } else if i == p {
            assert(r[i] == x);
            assert(r[j] == s[j - 1]);
            assert(s[p].size_bytes >= s[j - 1].size_bytes);
        } else {
            assert(r[i] == s[i - 1] && r[j] == s[j - 1]);
        }
    }
    lemma_multiset_commutative(pre + seq![x], post);
    lemma_multiset_commutative(pre, seq![x]);
    lemma_multiset_commutative(pre, post);
    assert(pre + post =~= s);
    assert(seq![x].to_multiset() =~= Multiset::empty().insert(x)) by {
        assert(Seq::<DiskNode>::empty().push(x) =~= seq![x]);
    }
}

/// Ordering children by size leaves them largest first.
pub proof fn lemma_sort_desc_ordered(s: Seq<DiskNode>)
    ensures
        size_descending(sort_desc(s)),
        sort_desc(s).len() == s.len(),
    decreases s.len(),
{
    if s.len() > 0 {
        lemma_sort_desc_ordered(s.drop_last());
        lemma_insert_desc(sort_desc(s.drop_last()), s.last());
    }
}

/// Ordering children by size keeps exactly the same children.
pub proof fn lemma_sort_desc_permutes(s: Seq<DiskNode>)
    ensures
        sort_desc(s).to_multiset() == s.to_multiset(),
    decreases s.len(),
{
    broadcast use group_to_multiset_ensures;

    if s.len() > 0 {
        lemma_sort_desc_permutes(s.drop_last());
        lemma_sort_desc_ordered(s.drop_last());
        lemma_insert_desc(sort_desc(s.drop_last()), s.last());
        assert(s.drop_last().push(s.last()) =~= s);
    }
}

/// The children nodes of scanned results.
pub open spec fn nodes_of(results: Seq<(DiskNode, bool)>) -> Seq<DiskNode> {
    results.map_values(|p: (DiskNode, bool)| p.0)
}

/// Whether any scanned child was cut short.
pub open spec fn any_truncated(results: Seq<(DiskNode, bool)>) -> bool {
    exists|i: int| 0 <= i < results.len() && #[trigger] results[i].1
}

/// A directory's node from its scanned children: sizes and file counts
/// summed, directories summed plus one for itself, children largest first and
/// at most `max_children` of them. The scan counts as truncated when a child
/// was, or when children were left out.
pub fn dir_node(name: String, path: String, results: Vec<(DiskNode, bool)>, max_children: usize) -> (r: (DiskNode, bool))
    requires
        total_size(nodes_of(results@)) <= u64::MAX,
        total_files(nodes_of(results@)) <= u64::MAX,
        1 + total_dirs(nodes_of(results@)) <= u64::MAX,
    ensures
        r.0.name == name,
        r.0.path == path,
        r.0.is_dir,
        r.0.size_bytes == total_size(nodes_of(results@)),
        r.0.file_count == total_files(nodes_of(results@)),
        r.0.dir_count == 1 + total_dirs(nodes_of(results@)),
        r.0.children@ == (if results@.len() > max_children {
            sort_desc(nodes_of(results@)).subrange(0, max_children as int)
        } else {
            sort_desc(nodes_of(results@))
        }),
        r.1 == (any_truncated(results@) || results@.len() > max_children),
{
    let ghost all = nodes_of(results@);
    let ghost res = results@;
    let n = results.len();
    let mut rest = results;
    let mut children: Vec<DiskNode> = Vec::new();
    let mut size: u64 = 0;
    let mut files: u64 = 0;
    let mut dirs: u64 = 0;
    let mut truncated = false;
    let mut i: usize = 0;
    while i < n
        invariant
            i <= n,
            n == res.len(),
            all == nodes_of(res),
            rest@ == res.subrange(i as int, n as int),
            total_size(all) <= u64::MAX,
            total_files(all) <= u64::MAX,
            1 + total_dirs(all) <= u64::MAX,
            size == total_size(all.subrange(0, i as int)),
            files == total_files(all.subrange(0, i as int)),
            dirs == total_dirs(all.subrange(0, i as int)),
            children@ == sort_desc(all.subrange(0, i as int)),
            truncated == any_truncated(res.subrange(0, i as int)),
        decreases n - i,
    {
        let (node, t) = rest.remove(0);
        proof {
            assert(res[i as int] == (node, t));
            let pre = all.subrange(0, i + 1);
            assert(pre.drop_last() =~= all.subrange(0, i as int));
            assert(pre.last() == node);
            lemma_totals_prefix(all, i as int + 1);
        }
        size = size + node.size_bytes;
        files = files + node.file_count;
        dirs = dirs + node.dir_count;
        truncated = truncated || t;
        let mut p: usize = 0;
        while p < children.len() && children[p].size_bytes >= node.size_bytes
            invariant
                p <= children.len(),
                first_smaller(children@, node.size_bytes, 0) == first_smaller(
                    children@,
                    node.size_bytes,
                    p as int,
                ),
            decreases children.len() - p,
        {
            p = p + 1;
        }
        let ghost before = children@;
        children.insert(p, node);
        proof {
            assert(first_smaller(before, node.size_bytes, p as int) == p);
            assert(children@ =~= insert_desc(before, node));
            assert(sort_desc(all.subrange(0, i + 1)) == insert_desc(sort_desc(all.subrange(0, i as int)), node));
            let rs = res.subrange(0, i + 1);
            if truncated {
                if t {
                    assert(rs[i as int].1);
                } else {
                    let w = choose|w: int| 0 <= w < i && #[trigger] res.subrange(0, i as int)[w].1;
                    assert(rs[w].1);
                }
            } else {
                assert forall|w: int| 0 <= w < rs.len() implies !#[trigger] rs[w].1 by {
                    if w < i {
                        assert(res.subrange(0, i as int)[w] == rs[w]);
                    }
                }
            }
        }
        i = i + 1;
        assert(rest@ =~= res.subrange(i as int, n as int));
    }
    assert(all.subrange(0, n as int) =~= all);
    assert(res.subrange(0, n as int) =~= res);
    proof {
        lemma_sort_desc_ordered(all);
    }
    if children.len() > max_children {
        children.truncate(max_children);
        truncated = true;
    }
    (
        DiskNode {
            name,
            path,
            is_dir: true,
            size_bytes: size,
            file_count: files,
            dir_count: dirs + 1,
            children,
        },
        truncated,
    )
}

proof fn lemma_totals_prefix(s: Seq<DiskNode>, k: int)
    requires
        0 <= k <= s.len(),
    ensures
        total_size(s.subrange(0, k)) <= total_size(s),
        total_files(s.subrange(0, k)) <= total_files(s),
        total_dirs(s.subrange(0, k)) <= total_dirs(s),
    decreases s.len() - k,
{
    if k < s.len() {
        lemma_totals_prefix(s, k + 1);
        let t = s.subrange(0, k + 1);
        assert(t.drop_last() =~= s.subrange(0, k));
    } else {
        assert(s.subrange(0, k) =~= s);
    }
}

} // verus!
