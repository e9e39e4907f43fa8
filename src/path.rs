//! Reconstructing full paths from parent references, with sequence-number checks and a
//! guard against cycles.
use vstd::prelude::*;
use vstd::string::StringExecFns;
use std::collections::{HashMap, HashSet};

verus! {

broadcast use vstd::std_specs::hash::group_hash_axioms;

/// What the table knows of one entry: its parent and the parent's expected sequence number,
/// its own sequence number, and its name.
#[derive(Debug, Clone)]
pub struct PathNode {
    pub parent: u64,
    pub parent_seq: u16,
    pub self_seq: u16,
    pub name: String,
}

/// The entry → parent table that path reconstruction walks.
#[derive(Debug)]
pub struct PathBuilder {
    entries: HashMap<u64, PathNode>,
}

/// The MFT entry number of the root directory.
pub const ROOT_ENTRY: u64 = 5;

pub open spec fn loop_marker() -> Seq<char> {
    "<CORRUPTED_LOOP>"@
}

pub open spec fn orphan_marker() -> Seq<char> {
    "<ORPHAN_OR_REALLOCATED>"@
}

/// The names met walking up from `cur` (which must carry sequence number `seq`, unless it is
/// 0), nearest first. The walk stops at the root, at an entry that is its own parent, at an
/// unknown entry, at a sequence mismatch (adding the orphan marker) or at an entry already
/// visited (adding the loop marker). The name `.` is skipped. `fuel` bounds the walk and is
/// never exhausted when it exceeds the number of entries that are not yet visited.
pub open spec fn walk_up(m: Map<u64, PathNode>, cur: u64, seq: u16, visited: Set<u64>, fuel: nat) -> Seq<
    Seq<char>,
>
    decreases fuel,
{
    if fuel == 0 || !m.contains_key(cur) {
        Seq::empty()
    } else if visited.contains(cur) {
        seq![loop_marker()]
    } else {
        let node = m[cur];
        if seq != 0 && node.self_seq != seq {
            seq![orphan_marker()]
        } else {
            let here: Seq<Seq<char>> = if node.name@ == "."@ { Seq::empty() } else { seq![node.name@] };
            if cur == 5 || node.parent == cur {
                here
            } else {
                here + walk_up(m, node.parent, node.parent_seq, visited.insert(cur), (fuel - 1) as nat)
            }
        }
    }
}

/// `\` followed by each part, each separated by `\`, in the order given.
pub open spec fn join_parts(parts: Seq<Seq<char>>) -> Seq<char>
    decreases parts.len(),
{
    if parts.len() == 0 {
        Seq::empty()
    } else {
        join_parts(parts.drop_last()) + "\\"@ + parts.last()
    }
}

/// The path of `entry`: the names walked up from it, root first, joined by `\` behind a
/// leading `\`; a lone `\` when there are none.
pub open spec fn full_path_spec(m: Map<u64, PathNode>, entry: u64, seq: u16) -> Seq<char> {
    let parts = walk_up(m, entry, seq, Set::empty(), (m.dom().len() + 1) as nat).reverse();
    if parts.len() == 0 {
        "\\"@
    } else {
        join_parts(parts)
    }
}

impl PathBuilder {
    pub closed spec fn view(&self) -> Map<u64, PathNode> {
        self.entries@
    }

    pub fn new() -> (r: Self)
        ensures
            r.view() == Map::<u64, PathNode>::empty(),
    {
        PathBuilder { entries: HashMap::new() }
    }

    pub fn reserve(&mut self, additional: usize)
        ensures
            final(self).view() == old(self).view(),
    {
        self.entries.reserve(additional);
    }

    /// Records that `entry_num`, with sequence number `self_seq`, is named `name` inside
    /// `parent_num`, whose sequence number is expected to be `parent_seq`.
    pub fn add_entry(&mut self, entry_num: u64, self_seq: u16, parent_num: u64, parent_seq: u16, name: String)
        ensures
            final(self).view() == old(self).view().insert(
                entry_num,
                PathNode { parent: parent_num, parent_seq, self_seq, name },
            ),
    {
        self.entries.insert(entry_num, PathNode { parent: parent_num, parent_seq, self_seq, name });
    }

    /// The full path of `entry_num`, which is expected to carry sequence number
    /// `expected_seq` (0 accepts any).
    pub fn get_full_path(&self, entry_num: u64, expected_seq: u16) -> (r: String)
        ensures
            r@ == full_path_spec(self.view(), entry_num, expected_seq),
    {
        let ghost m = self.entries@;
        let ghost fuel0 = (m.dom().len() + 1) as nat;
        let mut parts: Vec<String> = Vec::new();
        let mut cur = entry_num;
        let mut seq = expected_seq;
        let mut visited: HashSet<u64> = HashSet::new();
        let ghost mut fuel: nat = fuel0;
        let dot = String::from_str(".");
        proof {
            assert(m.dom().finite());
        }
        loop
            invariant_except_break
                walk_up(m, entry_num, expected_seq, Set::empty(), fuel0) == parts@.map_values(|p: String| p@)
                    + walk_up(m, cur, seq, visited@, fuel),
            invariant
                m == self.entries@,
                m.dom().finite(),
                visited@.subset_of(m.dom()),
                visited@.len() + fuel == m.dom().len() + 1,
                dot@ == "."@,
            ensures
                walk_up(m, entry_num, expected_seq, Set::empty(), fuel0) == parts@.map_values(|p: String| p@),
            decreases fuel,
        {
            proof {
                vstd::set_lib::lemma_len_subset(visited@, m.dom());
            }
            let node = match self.entries.get(&cur) {
                Some(n) => n,
                None => {
                    proof {
                        assert(parts@.map_values(|p: String| p@) + Seq::empty() =~= parts@.map_values(|p: String| p@));
                    }
                    break;
                },
            };
            if visited.contains(&cur) {
                let ghost before = parts@;
                parts.push(String::from_str("<CORRUPTED_LOOP>"));
                proof {
                    assert(parts@.map_values(|p: String| p@) =~= before.map_values(|p: String| p@) + seq![loop_marker()]);
                }
                break;
            }
            if seq != 0 && node.self_seq != seq {
                let ghost before = parts@;
                parts.push(String::from_str("<ORPHAN_OR_REALLOCATED>"));
                proof {
                    assert(parts@.map_values(|p: String| p@) =~= before.map_values(|p: String| p@) + seq![orphan_marker()]);
                }
                break;
            }
            let ghost before = parts@;
            let ghost here: Seq<Seq<char>> = if node.name@ == "."@ { Seq::empty() } else { seq![node.name@] };
            if node.name != dot {
                parts.push(node.name.clone());
            }
            proof {
                assert(parts@.map_values(|p: String| p@) =~= before.map_values(|p: String| p@) + here);
            }
            if cur == ROOT_ENTRY || node.parent == cur {
                proof {
                    assert(parts@.map_values(|p: String| p@) + Seq::empty() =~= parts@.map_values(|p: String| p@));
                    assert(before.map_values(|p: String| p@) + here + Seq::empty() =~= parts@.map_values(|p: String| p@));
                }
                break;
            }
            visited.insert(cur);
            let ghost next_rest = walk_up(m, node.parent, node.parent_seq, visited@, (fuel - 1) as nat);
            proof {
                assert(before.map_values(|p: String| p@) + (here + next_rest) =~= parts@.map_values(|p: String| p@) + next_rest);
                fuel = (fuel - 1) as nat;
            }
            cur = node.parent;
            seq = node.parent_seq;
        }
        let ghost walked = parts@.map_values(|p: String| p@);
        let mut out = String::new();
        if parts.len() == 0 {
            out.append("\\");
            return out;
        }
        let n = parts.len();
        let mut i: usize = n;
        proof {
            assert(walked.reverse().len() == n);
        }
        while i > 0
            invariant
                i <= n == parts@.len(),
                walked == parts@.map_values(|p: String| p@),
                out@ == join_parts(walked.reverse().subrange(0, (n - i) as int)),
            decreases i,
        {
            let ghost pre = walked.reverse().subrange(0, (n - i) as int);
            let ghost post = walked.reverse().subrange(0, (n - i + 1) as int);
            proof {
                assert(post.drop_last() =~= pre);
                assert(post.last() == walked[i - 1]);
            }
            out.append("\\");
            out.append(parts[i - 1].as_str());
            i = i - 1;
        }
        proof {
            assert(walked.reverse().subrange(0, n as int) =~= walked.reverse());
        }
        out
    }

    /// The path of a parent directory; never empty (at least `\`).
    pub fn get_parent_path(&self, parent_num: u64, parent_seq: u16) -> (r: String)
        ensures
            r@ == full_path_spec(self.view(), parent_num, parent_seq),
    {
        self.get_full_path(parent_num, parent_seq)
    }
}

} // verus!

verus! {

/// Building a path twice from an unchanged table gives the same string: the path depends on
/// the table's contents, the entry and the expected sequence number alone.
pub proof fn lemma_path_idempotent(a: &PathBuilder, b: &PathBuilder, entry: u64, seq: u16)
    requires
        a.view() == b.view(),
    ensures
        full_path_spec(a.view(), entry, seq) == full_path_spec(b.view(), entry, seq),
{
}

} // verus!
