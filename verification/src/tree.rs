//! The tree of entries that `ls` prints: each entry with the entries below it,
//! drawn with box-drawing connectors in the order of their names.
use crate::order::{sorted_order, stable_order};
use crate::paths::{entry_name, lemma_last_gpg_before, stem_end};
use crate::style::{bold, fg_blue, reset};
use crate::text::{ascii_lower, chars_of, push_str, string_of, sub_chars, to_ascii_lowercase};
use vstd::prelude::*;
use vstd::utf8::{decode_utf8, encode_utf8, encode_utf8_valid_utf8, is_char_boundary_start_end_of_seq};

verus! {

/// An entry of the store (a file or a folder) and, for a folder, the entries in it.
pub struct Tree {
    /// The path of the entry.
    pub root: String,
    /// Whether the entry is a folder.
    pub is_dir: bool,
    /// The entries in the folder.
    pub leaves: Vec<Tree>,
}

/// Where the last `'/'` of `p` stands (`-1` where there is none).
pub open spec fn last_slash(p: Seq<char>) -> int
    decreases p.len(),
{
    if p.len() == 0 {
        -1
    } else if p.last() == '/' {
        p.len() - 1
    } else {
        last_slash(p.drop_last())
    }
}

/// The last component of the path `p`: what follows its last `'/'`.
pub open spec fn file_name_of(p: Seq<char>) -> Seq<char> {
    p.subrange(last_slash(p) + 1, p.len() as int)
}

/// `p` ends in a component that `Path::file_name` returns as it stands: not
/// empty (no trailing `'/'`), and neither `.` nor `..`.
pub open spec fn has_file_name(p: Seq<char>) -> bool {
    let n = file_name_of(p);
    n.len() > 0 && n != seq!['.'] && n != seq!['.', '.']
}

/// Every entry of the tree, at any depth, has a file name.
pub open spec fn all_named(branches: Seq<Tree>) -> bool
    decreases branches,
{
    forall|i: int|
        0 <= i < branches.len() ==> {
            &&& has_file_name((#[trigger] branches[i]).root@)
            &&& all_named(branches[i].leaves@)
        }
}

/// A file's name without the extension: up to its last `.gpg`.
pub open spec fn stem_of(name: Seq<char>) -> Seq<char> {
    decode_utf8(encode_utf8(name).subrange(0, stem_end(encode_utf8(name))))
}

pub open spec fn blank() -> Seq<char> {
    "    "@
}

pub open spec fn line() -> Seq<char> {
    "\u{2502}   "@
}

pub open spec fn edge() -> Seq<char> {
    "\u{251c}\u{2500}\u{2500} "@
}

pub open spec fn corner() -> Seq<char> {
    "\u{2514}\u{2500}\u{2500} "@
}

/// The indentation for the levels above a branch: blank under a level whose
/// branch was the last one, a vertical line otherwise.
pub open spec fn indent(prefix: Seq<bool>) -> Seq<char>
    decreases prefix.len(),
{
    if prefix.len() == 0 {
        Seq::empty()
    } else {
        indent(prefix.drop_last()) + if prefix.last() {
            blank()
        } else {
            line()
        }
    }
}

/// The indentation of a branch is four characters for each level above it,
/// from the outermost level in: level `i` draws four spaces where the branch
/// above at that level was the last of its folder, and a vertical line and
/// three spaces where it was not.
pub proof fn lemma_indent_levels(prefix: Seq<bool>)
    ensures
        indent(prefix).len() == 4 * prefix.len(),
        forall|i: int|
            0 <= i < prefix.len() ==> indent(prefix).subrange(4 * i, 4 * i + 4) == if #[trigger] prefix[i] {
                "    "@
            } else {
                "\u{2502}   "@
            },
    decreases prefix.len(),
{
    reveal_strlit("    ");
    reveal_strlit("\u{2502}   ");
    if prefix.len() > 0 {
        let d = prefix.drop_last();
        lemma_indent_levels(d);
        let seg = if prefix.last() {
            blank()
        } else {
            line()
        };
        assert(indent(prefix) == indent(d) + seg);
        assert forall|i: int| 0 <= i < prefix.len() implies indent(prefix).subrange(4 * i, 4 * i + 4) == if #[trigger] prefix[i] {
            "    "@
        } else {
            "\u{2502}   "@
        } by {
            if i < d.len() {
                assert(prefix[i] == d[i]);
                assert(indent(prefix).subrange(4 * i, 4 * i + 4) =~= indent(d).subrange(4 * i, 4 * i + 4));
            } else {
                assert(indent(prefix).subrange(4 * i, 4 * i + 4) =~= seg);
            }
        }
    }
}

/// How a branch's own name is drawn: a folder in bold blue, a file without
/// its extension.
pub open spec fn leaf_text(t: Tree) -> Seq<char> {
    if t.is_dir {
        "\u{1b}[38;5;4m"@ + "\u{1b}[1m"@ + file_name_of(t.root@) + "\u{1b}[m"@
    } else {
        stem_of(file_name_of(t.root@))
    }
}

/// The line of a branch.
pub open spec fn branch_line(prefix: Seq<bool>, last: bool, t: Tree) -> Seq<char> {
    indent(prefix) + (if last {
        corner()
    } else {
        edge()
    }) + leaf_text(t)
}

/// The keys by which branches are sorted: their paths, ASCII lower-cased.
pub open spec fn branch_keys(branches: Seq<Tree>) -> Seq<Seq<char>> {
    branches.map_values(|t: Tree| ascii_lower(t.root@))
}

/// The lines that draw `branches` below the levels `prefix`: the branches in
/// the order of their keys, each followed by the lines of its own branches.
pub open spec fn draw(branches: Seq<Tree>, prefix: Seq<bool>) -> Seq<Seq<char>>
    decreases branches, branches.len() + 1,
{
    draw_from(branches, sorted_order(branch_keys(branches)), 0, prefix)
}

/// The lines of the branches at positions `k..` of `order`.
pub open spec fn draw_from(branches: Seq<Tree>, order: Seq<usize>, k: int, prefix: Seq<bool>) -> Seq<Seq<char>>
    decreases branches, branches.len() - k,
    when 0 <= k
{
    if k >= order.len() || k >= branches.len() || order[k] >= branches.len() {
        Seq::empty()
    } else {
        let t = branches[order[k] as int];
        let last = k >= branches.len() - 1;
        let below = if t.leaves.len() > 0 {
            proof {
                assert(decreases_to!(branches => t));
                assert(decreases_to!(t => t.leaves));
                assert(decreases_to!(t.leaves => t.leaves@));
            }
            draw(t.leaves@, prefix.push(last))
        } else {
            Seq::empty()
        };
        seq![branch_line(prefix, last, t)] + below + draw_from(branches, order, k + 1, prefix)
    }
}

/// The views of a sequence of lines.
pub open spec fn lines_of(v: Seq<String>) -> Seq<Seq<char>> {
    v.map_values(|s: String| s@)
}

/// The last component of `path`.
pub fn file_name(path: &String) -> (r: String)
    ensures
        r@ == file_name_of(path@),
{
    let cs = chars_of(path.as_str());
    let mut i: usize = cs.len();
    assert(cs@.take(i as int) =~= cs@);
    while i > 0
        invariant
            i <= cs@.len(),
            cs@ == path@,
            last_slash(cs@) == last_slash(cs@.take(i as int)),
        ensures
            i == 0 || cs@[i - 1] == '/',
        decreases i,
    {
        assert(cs@.take(i as int).drop_last() =~= cs@.take(i - 1));
        if cs[i - 1] == '/' {
            break;
        }
        i -= 1;
    }
    proof {
        if i == 0 {
            assert(cs@.take(0).len() == 0);
        }
    }
    let piece = sub_chars(cs.as_slice(), i, cs.len());
    string_of(piece.as_slice())
}

fn indent_text(prefix: &Vec<bool>) -> (r: String)
    ensures
        r@ == indent(prefix@),
{
    let mut out = String::new();
    let mut i: usize = 0;
    while i < prefix.len()
        invariant
            i <= prefix@.len(),
            out@ == indent(prefix@.take(i as int)),
        decreases prefix.len() - i,
    {
        assert(prefix@.take(i + 1).drop_last() =~= prefix@.take(i as int));
        if prefix[i] {
            push_str(&mut out, "    ");
        } else {
            push_str(&mut out, "\u{2502}   ");
        }
        i += 1;
    }
    assert(prefix@.take(prefix.len() as int) =~= prefix@);
    out
}

fn leaf_line(t: &Tree) -> (r: String)
    ensures
        r@ == leaf_text(*t),
{
    let name = file_name(&t.root);
    if t.is_dir {
        let mut out = fg_blue();
        let b = bold();
        push_str(&mut out, b.as_str());
        push_str(&mut out, name.as_str());
        let z = reset();
        push_str(&mut out, z.as_str());
        out
    } else {
        proof {
            encode_utf8_valid_utf8(name@);
            is_char_boundary_start_end_of_seq(encode_utf8(name@));
            lemma_last_gpg_before(encode_utf8(name@), encode_utf8(name@).len() as int);
        }
        entry_name(name.as_str(), 0)
    }
}

fn copy_prefix(prefix: &Vec<bool>) -> (r: Vec<bool>)
    ensures
        r@ == prefix@,
{
    let mut r: Vec<bool> = Vec::new();
    let mut i: usize = 0;
    while i < prefix.len()
        invariant
            i <= prefix@.len(),
            r@ == prefix@.take(i as int),
        decreases prefix.len() - i,
    {
        r.push(prefix[i]);
        assert(prefix@.take(i as int).push(prefix@[i as int]) =~= prefix@.take(i + 1));
        i += 1;
    }
    assert(prefix@.take(prefix.len() as int) =~= prefix@);
    r
}

fn sort_keys(branches: &Vec<Tree>) -> (keys: Vec<Vec<char>>)
    ensures
        keys@.map_values(|k: Vec<char>| k@) == branch_keys(branches@),
{
    let mut keys: Vec<Vec<char>> = Vec::new();
    let mut i: usize = 0;
    while i < branches.len()
        invariant
            i <= branches@.len(),
            keys@.len() == i,
            forall|k: int| 0 <= k < i ==> (#[trigger] keys@[k])@ == ascii_lower(branches@[k].root@),
        decreases branches.len() - i,
    {
        let cs = chars_of(branches[i].root.as_str());
        keys.push(to_ascii_lowercase(cs.as_slice()));
        i += 1;
    }
    assert(keys@.map_values(|k: Vec<char>| k@) =~= branch_keys(branches@));
    keys
}

/// Appends to `out` the lines that draw `branches` below the levels `prefix`.
pub fn draw_into(branches: &Vec<Tree>, prefix: &Vec<bool>, out: &mut Vec<String>)
    requires
        all_named(branches@),
    ensures
        lines_of(final(out)@) == lines_of(old(out)@) + draw(branches@, prefix@),
    decreases branches@,
{
    let ghost start = lines_of(out@);
    let keys = sort_keys(branches);
    let order = stable_order(&keys);
    let ghost ord = order@;
    let n = branches.len();
    let mut k: usize = 0;
    while k < n
        invariant
            k <= n,
            n == branches@.len(),
            ord == order@,
            ord == sorted_order(branch_keys(branches@)),
            ord.len() == n,
            forall|a: int| 0 <= a < ord.len() ==> #[trigger] ord[a] < n,
            all_named(branches@),
            lines_of(out@) + draw_from(branches@, ord, k as int, prefix@) == start + draw(branches@, prefix@),
        decreases n - k,
    {
        let j = order[k];
        let t = &branches[j];
        let last = k >= n - 1;
        let ghost before = lines_of(out@);
        let text = leaf_line(t);
        let mut line_text = indent_text(prefix);
        if last {
            push_str(&mut line_text, "\u{2514}\u{2500}\u{2500} ");
        } else {
            push_str(&mut line_text, "\u{251c}\u{2500}\u{2500} ");
        }
        push_str(&mut line_text, text.as_str());
        assert(line_text@ == branch_line(prefix@, last, *t));
        out.push(line_text);
        assert(lines_of(out@) =~= before.push(branch_line(prefix@, last, *t)));
        let ghost mid = lines_of(out@);
        if t.leaves.len() > 0 {
            let mut sub = copy_prefix(prefix);
            sub.push(last);
            assert(all_named(t.leaves@));
            proof {
                assert(decreases_to!(branches@ => branches@[j as int]));
                assert(decreases_to!(branches@[j as int] => branches@[j as int].leaves));
                assert(decreases_to!(branches@[j as int].leaves => branches@[j as int].leaves@));
            }
            draw_into(&t.leaves, &sub, out);
        }
        assert(lines_of(out@) + draw_from(branches@, ord, k + 1, prefix@) =~= before + draw_from(
            branches@,
            ord,
            k as int,
            prefix@,
        ));
        k += 1;
    }
    assert(draw_from(branches@, ord, n as int, prefix@) =~= Seq::<Seq<char>>::empty());
}

/// The first line of a drawn tree: its root in bold blue for a folder (named
/// "Password Store" when it is the store itself), its file name for a file.
pub open spec fn head_line(t: Tree, is_store_root: bool) -> Seq<char> {
    if t.is_dir {
        "\u{1b}[1m"@ + "\u{1b}[38;5;4m"@ + (if is_store_root {
            "Password Store"@
        } else {
            file_name_of(t.root@)
        }) + "\u{1b}[m"@
    } else {
        file_name_of(t.root@)
    }
}

impl Tree {
    /// The path of the entry.
    pub fn root_path(&self) -> (r: String)
        ensures
            r@ == self.root@,
    {
        self.root.clone()
    }

    /// The lines that draw the tree: its root, then its branches.
    /// `is_store_root` tells whether the root is the store's own folder.
    pub fn display_tree(&self, is_store_root: bool) -> (lines: Vec<String>)
        requires
            !(self.is_dir && is_store_root) ==> has_file_name(self.root@),
            all_named(self.leaves@),
        ensures
            lines_of(lines@) == seq![head_line(*self, is_store_root)] + draw(self.leaves@, Seq::empty()),
    {
        let head = if self.is_dir {
            let mut h = bold();
            let blue = fg_blue();
            push_str(&mut h, blue.as_str());
            if is_store_root {
                push_str(&mut h, "Password Store");
            } else {
                let name = file_name(&self.root);
                push_str(&mut h, name.as_str());
            }
            let z = reset();
            push_str(&mut h, z.as_str());
            h
        } else {
            file_name(&self.root)
        };
        let mut lines: Vec<String> = Vec::new();
        lines.push(head);
        let prefix: Vec<bool> = Vec::new();
        assert(prefix@ =~= Seq::<bool>::empty());
        draw_into(&self.leaves, &prefix, &mut lines);
        lines
    }
}

} // verus!
