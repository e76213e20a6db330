//! Rendering a folder tree as indented, connector-decorated text.
//!
//! Each node produces one line: its indentation as literal spaces, a corner
//! connector for a last sibling or a tee connector otherwise, the name, and
//! a newline. A folder's own line is followed by one line per file and then
//! by the blocks of its subfolders, both two columns deeper. Only the
//! "last sibling at this level" flag is tracked; no vertical guide lines
//! are threaded through ancestors -- a deliberate simplification of the
//! format, kept exactly.

use vstd::prelude::*;
use crate::folder::Folder;
use crate::folder::lemma_child_height;

verus! {

/// One rendered line: indentation column, last-sibling flag, printed name.
pub struct Line {
    pub indent: nat,
    pub is_last: bool,
    pub name: Seq<char>,
}

/// The connector glyphs: a corner for a last sibling, a tee otherwise.
pub open spec fn connector(is_last: bool) -> Seq<char> {
    if is_last {
        "└── "@
    } else {
        "├── "@
    }
}

/// `n` literal spaces.
pub open spec fn spaces(n: nat) -> Seq<char>
    decreases n,
{
    if n == 0 {
        Seq::empty()
    } else {
        spaces((n - 1) as nat).push(' ')
    }
}

/// The text of one line: indentation, connector, name, newline.
pub open spec fn line_text(l: Line) -> Seq<char> {
    spaces(l.indent) + connector(l.is_last) + l.name + "\n"@
}

/// The texts of a block of lines, one after the other.
pub open spec fn text_of(lines: Seq<Line>) -> Seq<char>
    decreases lines.len(),
{
    if lines.len() == 0 {
        Seq::empty()
    } else {
        line_text(lines[0]) + text_of(lines.drop_first())
    }
}

/// The file lines of a folder: one per file, in stored order; the last
/// file is the last sibling among the files.
pub open spec fn file_lines(files: Seq<String>, indent: nat) -> Seq<Line> {
    Seq::new(
        files.len(),
        |i: int| Line { indent, is_last: i == files.len() - 1, name: files[i]@ },
    )
}

/// The lines of one folder's block: its own line, then its file lines,
/// then its subfolders' blocks, the latter two both two columns deeper.
pub open spec fn node_lines(f: Folder, indent: nat, is_last: bool) -> Seq<Line>
    decreases f, f.subfolders@.len() + 1,
{
    seq![Line { indent, is_last, name: f.name@ }] + file_lines(f.files@, indent + 2)
        + subs_lines(f, 0, indent + 2)
}

/// The blocks of the subfolders at positions `i` and beyond; the last
/// subfolder is the last sibling among the subfolders.
pub open spec fn subs_lines(f: Folder, i: int, indent: nat) -> Seq<Line>
    decreases f, f.subfolders@.len() - i,
{
    if 0 <= i < f.subfolders@.len() {
        node_lines(f.subfolders@[i], indent, i == f.subfolders@.len() - 1) + subs_lines(
            f,
            i + 1,
            indent,
        )
    } else {
        Seq::empty()
    }
}

/// The full rendering of a folder's block at a given indentation.
pub open spec fn render_node(f: Folder, indent: nat, is_last: bool) -> Seq<char> {
    text_of(node_lines(f, indent, is_last))
}

/// Rendering a concatenation of blocks concatenates their texts.
pub proof fn lemma_text_of_add(a: Seq<Line>, b: Seq<Line>)
    ensures
        text_of(a + b) == text_of(a) + text_of(b),
    decreases a.len(),
{
    if a.len() == 0 {
        assert(a + b =~= b);
        assert(text_of(a) + text_of(b) =~= text_of(b));
    } else {
        lemma_text_of_add(a.drop_first(), b);
        assert((a + b).drop_first() =~= a.drop_first() + b);
        assert((a + b)[0] == a[0]);
        assert(line_text(a[0]) + (text_of(a.drop_first()) + text_of(b)) =~= (line_text(a[0])
            + text_of(a.drop_first())) + text_of(b));
    }
}

/// Rendering is deterministic: two rendered texts of the same tree at the
/// same position are byte-identical.
pub proof fn lemma_render_deterministic(
    f: Folder,
    indent: nat,
    is_last: bool,
    first: Seq<char>,
    second: Seq<char>,
)
    requires
        first == render_node(f, indent, is_last),
        second == render_node(f, indent, is_last),
    ensures
        first == second,
{
}

/// `spaces(n)` is exactly `n` space characters.
pub proof fn lemma_spaces(n: nat)
    ensures
        spaces(n).len() == n,
        forall|k: int| 0 <= k < n ==> spaces(n)[k] == ' ',
    decreases n,
{
    if n > 0 {
        lemma_spaces((n - 1) as nat);
    }
}

/// A line carries exactly its indentation's worth of leading spaces: every
/// character before column `indent` is a space, the four characters from
/// column `indent` are the connector, and the connector begins with a
/// character that is not a space.
pub proof fn lemma_line_indent(l: Line)
    ensures
        line_text(l).len() > l.indent + 4,
        forall|k: int| 0 <= k < l.indent ==> line_text(l)[k] == ' ',
        line_text(l).subrange(l.indent as int, l.indent as int + 4) == connector(l.is_last),
        line_text(l)[l.indent as int] != ' ',
{
    reveal_strlit("└── ");
    reveal_strlit("├── ");
    reveal_strlit("\n");
    lemma_spaces(l.indent);
    assert forall|k: int| 0 <= k < l.indent implies line_text(l)[k] == ' ' by {
        assert(line_text(l)[k] == spaces(l.indent)[k]);
    }
    assert(line_text(l).subrange(l.indent as int, l.indent as int + 4) =~= connector(
        l.is_last,
    ));
    assert(line_text(l)[l.indent as int] == connector(l.is_last)[0]);
}

/// The root of a rendered tree always gets the corner connector: the text
/// opens with it.
pub proof fn lemma_root_corner(f: Folder)
    ensures
        render_node(f, 0, true).len() >= 4,
        render_node(f, 0, true).subrange(0, 4) == "└── "@,
{
    reveal_strlit("└── ");
    let own = Line { indent: 0, is_last: true, name: f.name@ };
    let nl = node_lines(f, 0, true);
    assert(nl[0] == own);
    assert(text_of(nl) == line_text(nl[0]) + text_of(nl.drop_first()));
    lemma_line_indent(own);
    assert(render_node(f, 0, true).subrange(0, 4) =~= line_text(own).subrange(0, 4));
}

/// Among a folder's file lines the last file, and only it, is marked as
/// the last sibling; each file line carries the given indentation and the
/// file's own name, in stored order.
pub proof fn lemma_file_connector(files: Seq<String>, indent: nat, i: int)
    requires
        0 <= i < files.len(),
    ensures
        file_lines(files, indent)[i].is_last == (i == files.len() - 1),
        file_lines(files, indent)[i].indent == indent,
        file_lines(files, indent)[i].name == files[i]@,
{
}

/// Among a folder's subfolder blocks the last subfolder, and only it, is
/// rendered as the last sibling: block `j` opens with the subfolder's own
/// line, whose last-sibling flag holds exactly when `j` is the last
/// position.
pub proof fn lemma_subfolder_connector(f: Folder, j: int, indent: nat)
    requires
        0 <= j < f.subfolders@.len(),
    ensures
        node_lines(f.subfolders@[j], indent, j == f.subfolders@.len() - 1)[0] == (Line {
            indent,
            is_last: j == f.subfolders@.len() - 1,
            name: f.subfolders@[j].name@,
        }),
{
}

proof fn lemma_add_contains(a: Seq<Line>, b: Seq<Line>, x: Line)
    requires
        a.contains(x) || b.contains(x),
    ensures
        (a + b).contains(x),
{
    if a.contains(x) {
        let i = choose|i: int| 0 <= i < a.len() && a[i] == x;
        assert((a + b)[i] == x);
    } else {
        let i = choose|i: int| 0 <= i < b.len() && b[i] == x;
        assert((a + b)[a.len() + i] == x);
    }
}

proof fn lemma_subs_contains(f: Folder, j0: int, j: int, indent: nat, x: Line)
    requires
        0 <= j0 <= j < f.subfolders@.len(),
        node_lines(f.subfolders@[j], indent, j == f.subfolders@.len() - 1).contains(x),
    ensures
        subs_lines(f, j0, indent).contains(x),
    decreases j - j0,
{
    if j0 < j {
        lemma_subs_contains(f, j0 + 1, j, indent, x);
    }
    lemma_add_contains(
        node_lines(f.subfolders@[j0], indent, j0 == f.subfolders@.len() - 1),
        subs_lines(f, j0 + 1, indent),
        x,
    );
}

/// Every node of the tree is rendered, at an indentation exactly two
/// columns per level beneath the block's own: following any path of
/// subfolder positions, the reached node's line appears in the block,
/// marked as the last sibling exactly when the node is the last subfolder
/// of its parent (the block's root keeping the flag it was rendered with).
pub proof fn lemma_node_line(f: Folder, path: Seq<int>, indent: nat, is_last: bool)
    requires
        f.valid_path(path),
    ensures
        node_lines(f, indent, is_last).contains(
            Line {
                indent: indent + 2 * path.len(),
                is_last: if path.len() == 0 {
                    is_last
                } else {
                    path.last() == f.subtree_at(path.drop_last()).subfolders@.len() - 1
                },
                name: f.subtree_at(path).name@,
            },
        ),
    decreases path.len(),
{
    let target = Line {
        indent: indent + 2 * path.len(),
        is_last: if path.len() == 0 {
            is_last
        } else {
            path.last() == f.subtree_at(path.drop_last()).subfolders@.len() - 1
        },
        name: f.subtree_at(path).name@,
    };
    let head = seq![Line { indent, is_last, name: f.name@ }];
    let fl = file_lines(f.files@, indent + 2);
    if path.len() == 0 {
        assert(head[0] == target);
        assert(head.contains(target));
        lemma_add_contains(head, fl, target);
        lemma_add_contains(head + fl, subs_lines(f, 0, indent + 2), target);
    } else {
        let j = path[0];
        let child = f.subfolders@[j];
        let rest = path.drop_first();
        let child_last = j == f.subfolders@.len() - 1;
        lemma_node_line(child, rest, indent + 2, child_last);
        assert(f.subtree_at(path) == child.subtree_at(rest));
        if rest.len() == 0 {
            assert(path.drop_last() =~= Seq::<int>::empty());
            assert(f.subtree_at(path.drop_last()) == f);
            assert(path.last() == j);
        } else {
            assert(path.drop_last()[0] == j);
            assert(path.drop_last().drop_first() =~= rest.drop_last());
            assert(f.subtree_at(path.drop_last()) == child.subtree_at(rest.drop_last()));
            assert(path.last() == rest.last());
        }
        let child_target = Line {
            indent: (indent + 2) + 2 * rest.len(),
            is_last: if rest.len() == 0 {
                child_last
            } else {
                rest.last() == child.subtree_at(rest.drop_last()).subfolders@.len() - 1
            },
            name: child.subtree_at(rest).name@,
        };
        assert(child_target == target);
        lemma_subs_contains(f, 0, j, indent + 2, target);
        lemma_add_contains(head + fl, subs_lines(f, 0, indent + 2), target);
    }
}

/// The rendering is complete and adds nothing: a tree's block holds
/// exactly one line per folder and one line per file of the tree.
pub proof fn lemma_one_line_per_entry(f: Folder, indent: nat, is_last: bool)
    ensures
        node_lines(f, indent, is_last).len() == f.count_folders() + f.count_files(),
    decreases f, f.subfolders@.len() + 1,
{
    lemma_subs_lines_len(f, 0, indent + 2);
}

proof fn lemma_subs_lines_len(f: Folder, i: int, indent: nat)
    ensures
        subs_lines(f, i, indent).len() == f.subs_count_folders(i) + f.subs_count_files(i),
    decreases f, f.subfolders@.len() - i,
{
    if 0 <= i < f.subfolders@.len() {
        lemma_one_line_per_entry(f.subfolders@[i], indent, i == f.subfolders@.len() - 1);
        lemma_subs_lines_len(f, i + 1, indent);
    }
}

/// Appends one line of output: `indent` spaces, the connector chosen by
/// `is_last`, the name, and a newline.
fn append_line(out: &mut String, indent: usize, is_last: bool, name: &str)
    ensures
        final(out)@ == old(out)@ + line_text(
            Line { indent: indent as nat, is_last, name: name@ },
        ),
{
    let mut j: usize = 0;
    while j < indent
        invariant
            j <= indent,
            out@ == old(out)@ + spaces(j as nat),
        decreases indent - j,
    {
        out.append(" ");
        proof {
            reveal_strlit(" ");
            assert(old(out)@ + spaces(j as nat) + " "@ =~= old(out)@ + spaces(
                (j + 1) as nat,
            ));
        }
        j = j + 1;
    }
    if is_last {
        out.append("└── ");
    } else {
        out.append("├── ");
    }
    out.append(name);
    out.append("\n");
    proof {
        let l = Line { indent: indent as nat, is_last, name: name@ };
        assert(out@ =~= old(out)@ + line_text(l));
    }
}

/// Prints the folder structure in a tree-like format, returning the text:
/// the folder's line at the given indentation with the connector chosen by
/// `is_last`, each file and each subfolder two columns deeper, the last of
/// each using the corner connector.
pub fn render_folder(folder: &Folder, indent: usize, is_last: bool) -> (out: String)
    requires
        indent + 2 * folder.height() <= usize::MAX,
    ensures
        out@ == render_node(*folder, indent as nat, is_last),
    decreases folder,
{
    let mut out = String::new();
    append_line(&mut out, indent, is_last, folder.name.as_str());
    let ghost own = Line { indent: indent as nat, is_last, name: folder.name@ };
    let child_indent = indent + 2;
    let ghost fl = file_lines(folder.files@, child_indent as nat);
    let files_len = folder.files.len();
    proof {
        assert(fl.skip(0) =~= fl);
        assert(out@ =~= line_text(own));
    }
    let mut i: usize = 0;
    while i < files_len
        invariant
            i <= files_len,
            files_len == folder.files@.len(),
            child_indent == indent + 2,
            child_indent <= usize::MAX,
            fl == file_lines(folder.files@, child_indent as nat),
            out@ + text_of(fl.skip(i as int)) == line_text(own) + text_of(fl),
        decreases files_len - i,
    {
        let last_file = i + 1 == files_len;
        let ghost out0 = out@;
        append_line(&mut out, child_indent, last_file, folder.files[i].as_str());
        proof {
            assert(fl.skip(i as int)[0] == fl[i as int]);
            assert(fl[i as int] == Line {
                indent: child_indent as nat,
                is_last: last_file,
                name: folder.files@[i as int]@,
            });
            assert(fl.skip(i as int).drop_first() =~= fl.skip(i as int + 1));
            assert(out0 + line_text(fl[i as int]) + text_of(fl.skip(i as int + 1)) =~= out0
                + text_of(fl.skip(i as int)));
        }
        i = i + 1;
    }
    proof {
        assert(fl.skip(files_len as int) =~= Seq::<Line>::empty());
        assert(out@ + text_of(fl.skip(files_len as int)) =~= out@);
    }
    let ghost ci = child_indent as nat;
    let subs_len = folder.subfolders.len();
    let mut k: usize = 0;
    while k < subs_len
        invariant
            k <= subs_len,
            subs_len == folder.subfolders@.len(),
            child_indent == indent + 2,
            indent + 2 * folder.height() <= usize::MAX,
            ci == child_indent as nat,
            fl == file_lines(folder.files@, ci),
            out@ + text_of(subs_lines(*folder, k as int, ci)) == line_text(own) + text_of(fl)
                + text_of(subs_lines(*folder, 0, ci)),
        decreases subs_len - k,
    {
        let last_sub = k + 1 == subs_len;
        proof {
            lemma_child_height(*folder, k as int);
        }
        let rendered = render_folder(&folder.subfolders[k], child_indent, last_sub);
        let ghost out0 = out@;
        out.append(rendered.as_str());
        proof {
            let child = folder.subfolders@[k as int];
            let block = node_lines(child, ci, last_sub);
            lemma_text_of_add(block, subs_lines(*folder, k as int + 1, ci));
            assert(subs_lines(*folder, k as int, ci) == block + subs_lines(
                *folder,
                k as int + 1,
                ci,
            ));
            assert(out0 + text_of(block) + text_of(subs_lines(*folder, k as int + 1, ci))
                =~= out0 + text_of(subs_lines(*folder, k as int, ci)));
        }
        k = k + 1;
    }
    proof {
        assert(subs_lines(*folder, subs_len as int, ci) =~= Seq::<Line>::empty());
        assert(out@ + text_of(subs_lines(*folder, subs_len as int, ci)) =~= out@);
        let head = seq![own];
        lemma_text_of_add(head + fl, subs_lines(*folder, 0, ci));
        lemma_text_of_add(head, fl);
        assert(head.drop_first() =~= Seq::<Line>::empty());
        assert(text_of(head) =~= line_text(own));
        assert(node_lines(*folder, indent as nat, is_last) == (head + fl) + subs_lines(
            *folder,
            0,
            ci,
        ));
        assert(out@ =~= render_node(*folder, indent as nat, is_last));
    }
    out
}

/// Renders the whole tree to its textual form, the root line always using
/// the corner connector: the root has no preceding siblings.
pub fn render_tree(folder: &Folder) -> (out: String)
    requires
        2 * folder.height() <= usize::MAX,
    ensures
        out@ == render_node(*folder, 0, true),
        out@.len() >= 4,
        out@.subrange(0, 4) == "└── "@,
{
    proof {
        lemma_root_corner(*folder);
    }
    render_folder(folder, 0, true)
}

} // verus!
