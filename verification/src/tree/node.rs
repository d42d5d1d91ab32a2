use crate::strutil::{basename_of, basename_spec, parent_of, parent_spec, seq_le, str_le};
use crate::sys::local_time_fields;
use crate::timefmt::{valid_time, TimeFields};
use vstd::prelude::*;
use vstd::seq_lib::group_to_multiset_ensures;
use vstd::string::*;

verus! {

/// The point-in-time attributes of one filesystem object, handed in as
/// plain values by whoever performed the stat call.
#[derive(Clone, Copy, Debug)]
pub struct Metadata {
    pub is_dir: bool,
    pub is_file: bool,
    pub is_symlink: bool,
    pub size: u64,
    pub mode: u32,
    pub modified_secs: i64,
    pub uid: u32,
    pub gid: u32,
}

/// One filesystem object with its metadata; a directory owns an ordered
/// sequence of child entries.
#[derive(Debug)]
pub struct Node {
    pub children: Vec<Node>,
    pub path: String,
    pub file: String,
    pub parent: String,
    pub is_dir: bool,
    pub is_file: bool,
    pub is_symlink: bool,
    pub size: u64,
    pub mode: u32,
    pub modified: TimeFields,
    pub uid: u32,
    pub gid: u32,
}

/// All attributes of `a` and `b` agree, children aside.
pub open spec fn same_meta(a: Node, b: Node) -> bool {
    &&& a.path == b.path
    &&& a.file == b.file
    &&& a.parent == b.parent
    &&& a.is_dir == b.is_dir
    &&& a.is_file == b.is_file
    &&& a.is_symlink == b.is_symlink
    &&& a.size == b.size
    &&& a.mode == b.mode
    &&& a.modified == b.modified
    &&& a.uid == b.uid
    &&& a.gid == b.gid
}

/// Siblings stand in byte-lexicographic order of their names.
pub open spec fn sorted_by_name(s: Seq<Node>) -> bool {
    forall|i: int, j: int| 0 <= i < j < s.len() ==> seq_le(s[i].file@, s[j].file@)
}

/// The display names of a sequence of entries.
pub open spec fn names_of(s: Seq<Node>) -> Seq<Seq<char>> {
    s.map_values(|n: Node| n.file@)
}

/// One `parent/file` line per entry, pre-order over the whole tree.
pub open spec fn display_spec(n: Node) -> Seq<char>
    decreases n, 0int,
{
    (if n.parent@.len() > 0 {
        n.parent@ + "/"@
    } else {
        Seq::empty()
    }) + n.file@ + "\n"@ + display_children_spec(n.children@, n.children@.len() as int)
}

pub open spec fn display_children_spec(cs: Seq<Node>, i: int) -> Seq<char>
    decreases cs, i,
    when i <= cs.len()
{
    if i <= 0 {
        Seq::empty()
    } else {
        display_children_spec(cs, i - 1) + display_spec(cs[i - 1])
    }
}

impl Node {
    /// Builds the entry for `dir` from its metadata snapshot: the name is
    /// the literal `dir` for the current-directory sentinel `.`, otherwise
    /// the basename; the modification instant is broken into local-time
    /// fields, falling back to fixed in-range fields when the timestamp is
    /// outside the representable range.
    pub fn new(dir: &str, meta: &Metadata) -> (r: Node)
        ensures
            r.children@ == Seq::<Node>::empty(),
            r.path@ == dir@,
            r.parent@ == parent_spec(dir@),
            dir@ == "."@ ==> r.file@ == dir@,
            dir@ != "."@ ==> r.file@ == basename_spec(dir@),
            r.is_dir == meta.is_dir,
            r.is_file == meta.is_file,
            r.is_symlink == meta.is_symlink,
            r.size == meta.size,
            r.mode == meta.mode,
            r.uid == meta.uid,
            r.gid == meta.gid,
            valid_time(r.modified),
    {
        let parent = parent_of(dir);
        proof {
            reveal_strlit(".");
        }
        let is_dot = dir.unicode_len() == 1 && dir.get_char(0) == '.';
        proof {
            if is_dot {
                assert(dir@ =~= "."@);
            } else {
                assert(dir@ != "."@) by {
                    if dir@ == "."@ {
                        assert(dir@.len() == 1 && dir@[0] == '.');
                    }
                }
            }
        }
        let file = if is_dot {
            String::from_str(dir)
        } else {
            basename_of(dir)
        };
        let modified = match local_time_fields(meta.modified_secs) {
            Some(t) => t,
            None => TimeFields { month: 1, day: 1, hour: 0, minute: 0 },
        };
        let children: Vec<Node> = Vec::new();
        proof {
            assert(children@ =~= Seq::<Node>::empty());
        }
        Node {
            children,
            path: String::from_str(dir),
            file,
            parent,
            is_dir: meta.is_dir,
            is_file: meta.is_file,
            is_symlink: meta.is_symlink,
            size: meta.size,
            mode: meta.mode,
            modified,
            uid: meta.uid,
            gid: meta.gid,
        }
    }

    /// Appends a built child entry and returns its index.
    pub fn add_node(&mut self, child: Node) -> (r: usize)
        ensures
            final(self).children@ == old(self).children@.push(child),
            same_meta(*final(self), *old(self)),
            r == old(self).children@.len(),
    {
        self.children.push(child);
        self.children.len() - 1
    }

    /// Reorders the children into byte-lexicographic name order; the
    /// collection of children itself is unchanged.
    pub fn sort_children(&mut self)
        ensures
            same_meta(*final(self), *old(self)),
            sorted_by_name(final(self).children@),
            final(self).children@.to_multiset() == old(self).children@.to_multiset(),
    {
        broadcast use group_to_multiset_ensures;

        let mut out: Vec<Node> = Vec::new();
        proof {
            assert(out@.to_multiset().add(self.children@.to_multiset()) =~= self.children@.to_multiset());
        }
        while self.children.len() > 0
            invariant
                same_meta(*self, *old(self)),
                sorted_by_name(out@),
                out@.to_multiset().add(self.children@.to_multiset()) == old(
                    self,
                ).children@.to_multiset(),
                forall|i: int, j: int|
                    0 <= i < out@.len() && 0 <= j < self.children@.len() ==> seq_le(
                        out@[i].file@,
                        self.children@[j].file@,
                    ),
            decreases self.children@.len(),
        {
            let best = self.min_name_index();
            let ghost pre = self.children@;
            let picked = self.children.remove(best);
            proof {
                broadcast use group_to_multiset_ensures;

                assert(pre.remove(best as int).to_multiset() =~= pre.to_multiset().remove(
                    pre[best as int],
                ));
                assert(out@.push(picked).to_multiset() =~= out@.to_multiset().insert(picked));
                assert(out@.push(picked).to_multiset().add(self.children@.to_multiset()) =~= old(
                    self,
                ).children@.to_multiset()) by {
                    broadcast use vstd::multiset::group_multiset_axioms;

                    assert(pre.to_multiset().contains(picked));
                }
                assert(forall|i: int|
                    0 <= i < out@.len() ==> seq_le(out@[i].file@, picked.file@));
                assert forall|i: int, j: int|
                    0 <= i < out@.push(picked).len() && 0 <= j < out@.push(picked).len() && i
                        < j implies seq_le(
                    out@.push(picked)[i].file@,
                    out@.push(picked)[j].file@,
                ) by {}
                assert forall|i: int, j: int|
                    0 <= i < out@.push(picked).len() && 0 <= j
                        < self.children@.len() implies seq_le(
                    out@.push(picked)[i].file@,
                    self.children@[j].file@,
                ) by {
                    assert(self.children@[j] == pre.remove(best as int)[j]);
                    if j < best {
                        assert(self.children@[j] == pre[j]);
                    } else {
                        assert(self.children@[j] == pre[j + 1]);
                    }
                    if i < out@.len() {
                        crate::strutil::lemma_seq_le_trans(
                            out@[i].file@,
                            picked.file@,
                            self.children@[j].file@,
                        );
                    }
                }
            }
            out.push(picked);
        }
        proof {
            broadcast use vstd::multiset::group_multiset_axioms;

            assert(self.children@.to_multiset().len() == 0);
            assert(out@.to_multiset() =~= out@.to_multiset().add(self.children@.to_multiset()));
        }
        self.children = out;
    }

    /// Writes the tree as one `parent/file` line per entry, pre-order.
    pub fn display_string(&self) -> (r: String)
        ensures
            r@ == display_spec(*self),
        decreases *self,
    {
        let ghost cs = self.children@;
        let mut result = String::new();
        if self.parent.as_str().unicode_len() > 0 {
            result.append(self.parent.as_str());
            result.append("/");
        }
        result.append(self.file.as_str());
        result.append("\n");
        let ghost head = result@;
        proof {
            assert(result@ =~= head + display_children_spec(cs, 0));
        }
        let mut i: usize = 0;
        while i < self.children.len()
            invariant
                i <= cs.len(),
                cs == self.children@,
                head == (if self.parent@.len() > 0 {
                    self.parent@ + "/"@
                } else {
                    Seq::empty()
                }) + self.file@ + "\n"@,
                result@ == head + display_children_spec(cs, i as int),
            decreases cs.len() - i,
        {
            let sub = self.children[i].display_string();
            result.append(sub.as_str());
            proof {
                assert(result@ =~= head + display_children_spec(cs, i + 1));
            }
            i = i + 1;
        }
        result
    }

    /// The index of a child whose name is no greater than every
    /// sibling's name.
    fn min_name_index(&self) -> (r: usize)
        requires
            self.children@.len() > 0,
        ensures
            r < self.children@.len(),
            forall|j: int|
                0 <= j < self.children@.len() ==> seq_le(
                    self.children@[r as int].file@,
                    self.children@[j].file@,
                ),
    {
        let mut best: usize = 0;
        let mut k: usize = 1;
        proof {
            crate::strutil::lemma_seq_le_refl(self.children@[0].file@);
        }
        while k < self.children.len()
            invariant
                best < k,
                k <= self.children@.len(),
                forall|j: int|
                    0 <= j < k ==> seq_le(
                        self.children@[best as int].file@,
                        self.children@[j].file@,
                    ),
            decreases self.children@.len() - k,
        {
            let is_le = str_le(self.children[k].file.as_str(), self.children[best].file.as_str());
            proof {
                if is_le {
                    assert forall|j: int| 0 <= j < k + 1 implies seq_le(
                        self.children@[k as int].file@,
                        self.children@[j].file@,
                    ) by {
                        if j < k {
                            crate::strutil::lemma_seq_le_trans(
                                self.children@[k as int].file@,
                                self.children@[best as int].file@,
                                self.children@[j].file@,
                            );
                        } else {
                            crate::strutil::lemma_seq_le_refl(self.children@[k as int].file@);
                        }
                    }
                } else {
                    crate::strutil::lemma_seq_le_total(
                        self.children@[k as int].file@,
                        self.children@[best as int].file@,
                    );
                }
            }
            if is_le {
                best = k;
            }
            k = k + 1;
        }
        best
    }
}

} // verus!
