use crate::text::{scalars_of, string_of};
use crate::tree::{concat, debug_quoted, quoted, PrettyBranch, PrettyFragment, PrettyTree, PrettyValue};
use colored::Colorize;
use vstd::prelude::*;

verus! {

broadcast use vstd::std_specs::vec::axiom_vec_index_decreases;

/// One column of the guide drawn to the left of a tree line.
#[derive(Debug, Clone, Copy, PartialEq, Eq, Structural)]
pub enum TreeColumn {
    UpThenRight,
    VerticalBar,
    DownAndRight,
    DownThenRight,
    Empty,
}

pub open spec fn glyph_of(c: TreeColumn) -> char {
    match c {
        TreeColumn::UpThenRight => '╭',
        TreeColumn::VerticalBar => '│',
        TreeColumn::DownAndRight => '├',
        TreeColumn::DownThenRight => '╰',
        TreeColumn::Empty => ' ',
    }
}

impl TreeColumn {
    pub fn glyph(&self) -> (r: char)
        ensures
            r == glyph_of(*self),
    {
        match self {
            TreeColumn::UpThenRight => '╭',
            TreeColumn::VerticalBar => '│',
            TreeColumn::DownAndRight => '├',
            TreeColumn::DownThenRight => '╰',
            TreeColumn::Empty => ' ',
        }
    }
}

/// What a column becomes on the lines below the one it points at.
pub open spec fn settled(c: TreeColumn) -> TreeColumn {
    match c {
        TreeColumn::DownAndRight => TreeColumn::VerticalBar,
        TreeColumn::DownThenRight => TreeColumn::Empty,
        other => other,
    }
}

/// The glyphs of the columns, two spaces between each.
pub open spec fn joined_glyphs(cols: Seq<TreeColumn>) -> Seq<char>
    decreases cols.len(),
{
    if cols.len() == 0 {
        seq![]
    } else if cols.len() == 1 {
        seq![glyph_of(cols[0])]
    } else {
        joined_glyphs(cols.drop_last()) + seq![' ', ' ', glyph_of(cols.last())]
    }
}

/// The uncoloured guide in front of a line: the glyphs, then a connector.
pub open spec fn plain_leading(cols: Seq<TreeColumn>) -> Seq<char> {
    if cols.len() == 0 {
        seq![]
    } else {
        joined_glyphs(cols) + seq!['╼', '\u{2009}']
    }
}

/// The columns for a child: the parent's columns settled, then a pointer to
/// the child, the bent one for the last child.
pub open spec fn child_columns(cols: Seq<TreeColumn>, is_last: bool) -> Seq<TreeColumn> {
    cols.map_values(|c: TreeColumn| settled(c)).push(
        if is_last {
            TreeColumn::DownThenRight
        } else {
            TreeColumn::DownAndRight
        },
    )
}

/// The uncoloured drawing of a tree whose lines start with the guide `cols`.
pub open spec fn plain_format(t: PrettyTree, cols: Seq<TreeColumn>) -> Seq<char>
    decreases t, 0nat,
{
    match t {
        PrettyTree::Empty => seq![],
        PrettyTree::Value(x) => plain_leading(cols) + x@,
        PrettyTree::String(x) => plain_leading(cols) + debug_quoted(x@),
        PrettyTree::Branch(b) => plain_leading(cols) + b.label@ + plain_children(
            b.children@,
            cols,
            b.children@.len(),
        ),
        PrettyTree::Fragment(f) => plain_leading(cols) + seq!['[', ']'] + plain_children(
            f.nodes@,
            cols,
            f.nodes@.len(),
        ),
    }
}

/// The first `n` children drawn one level deeper, each on new lines.
pub open spec fn plain_children(children: Seq<PrettyTree>, cols: Seq<TreeColumn>, n: nat) -> Seq<
    char,
>
    decreases children, n,
{
    if n == 0 || n > children.len() {
        seq![]
    } else {
        plain_children(children, cols, (n - 1) as nat) + seq!['\n'] + plain_format(
            children[n - 1],
            child_columns(cols, n == children.len()),
        )
    }
}

/// The reset code that ends a coloured run.
pub open spec fn reset_code() -> Seq<char> {
    seq!['\u{1b}', '[', '0', 'm']
}

/// The text holds a reset code somewhere.
pub open spec fn holds_reset(s: Seq<char>) -> bool {
    exists|i: int| 0 <= i && i + 4 <= s.len() && #[trigger] s.subrange(i, i + 4) == reset_code()
}

/// Digits and semicolons only: the parameters of a colour code.
pub open spec fn is_code_text(codes: Seq<char>) -> bool {
    forall|i: int|
        0 <= i < codes.len() ==> ('0' <= #[trigger] codes[i] <= '9' || codes[i] == ';')
}

/// `out` is `s` as it is, or `s` after one colour code and before the reset.
pub open spec fn painted(s: Seq<char>, out: Seq<char>) -> bool {
    out == s || exists|codes: Seq<char>|
        is_code_text(codes) && out == seq!['\u{1b}', '['] + codes + seq!['m'] + s + reset_code()
}

/// `out` is `plain` cut into pieces, each of them painted.
pub open spec fn drawn_as(plain: Seq<char>, out: Seq<char>) -> bool {
    exists|ps: Seq<Seq<char>>, os: Seq<Seq<char>>|
        #![trigger ps.flatten_alt(), os.flatten_alt()]
        ps.len() == os.len() && ps.flatten_alt() == plain && os.flatten_alt() == out && forall|
            i: int,
        | 0 <= i < ps.len() ==> painted(#[trigger] ps[i], os[i])
}

proof fn lemma_flatten_concat(a: Seq<Seq<char>>, b: Seq<Seq<char>>)
    ensures
        (a + b).flatten_alt() == a.flatten_alt() + b.flatten_alt(),
    decreases b.len(),
{
    if b.len() == 0 {
        assert(a + b =~= a);
        assert(a.flatten_alt() + b.flatten_alt() =~= a.flatten_alt());
    } else {
        lemma_flatten_concat(a, b.drop_last());
        assert((a + b).drop_last() =~= a + b.drop_last());
        assert((a + b).last() == b.last());
        assert(a.flatten_alt() + b.flatten_alt() =~= a.flatten_alt() + b.drop_last().flatten_alt()
            + b.last());
    }
}

/// One painted piece is drawn as itself.
proof fn lemma_drawn_piece(p: Seq<char>, o: Seq<char>)
    requires
        painted(p, o),
    ensures
        drawn_as(p, o),
{
    let ps = seq![p];
    let os = seq![o];
    assert(ps.drop_last() =~= Seq::<Seq<char>>::empty());
    assert(os.drop_last() =~= Seq::<Seq<char>>::empty());
    assert(ps.last() == p && os.last() == o);
    assert(Seq::<Seq<char>>::empty().flatten_alt() == Seq::<char>::empty());
    assert(ps.flatten_alt() == ps.drop_last().flatten_alt() + ps.last());
    assert(os.flatten_alt() == os.drop_last().flatten_alt() + os.last());
    assert(ps.flatten_alt() =~= p);
    assert(os.flatten_alt() =~= o);
    assert(forall|i: int| 0 <= i < ps.len() ==> painted(#[trigger] ps[i], os[i]));
}

/// Drawings put one after the other draw the texts put one after the other.
proof fn lemma_drawn_concat(a: Seq<char>, b: Seq<char>, c: Seq<char>, d: Seq<char>)
    requires
        drawn_as(a, b),
        drawn_as(c, d),
    ensures
        drawn_as(a + c, b + d),
{
    let (ps1, os1) = choose|ps: Seq<Seq<char>>, os: Seq<Seq<char>>|
        #![trigger ps.flatten_alt(), os.flatten_alt()]
        ps.len() == os.len() && ps.flatten_alt() == a && os.flatten_alt() == b && forall|i: int|
            0 <= i < ps.len() ==> painted(#[trigger] ps[i], os[i]);
    let (ps2, os2) = choose|ps: Seq<Seq<char>>, os: Seq<Seq<char>>|
        #![trigger ps.flatten_alt(), os.flatten_alt()]
        ps.len() == os.len() && ps.flatten_alt() == c && os.flatten_alt() == d && forall|i: int|
            0 <= i < ps.len() ==> painted(#[trigger] ps[i], os[i]);
    lemma_flatten_concat(ps1, ps2);
    lemma_flatten_concat(os1, os2);
    let ps = ps1 + ps2;
    let os = os1 + os2;
    assert forall|i: int| 0 <= i < ps.len() implies painted(#[trigger] ps[i], os[i]) by {
        if i < ps1.len() {
            assert(ps[i] == ps1[i] && os[i] == os1[i]);
        } else {
            assert(ps[i] == ps2[i - ps1.len()] && os[i] == os2[i - ps1.len()]);
        }
    }
}

/// No text shown for the tree holds a reset code.
pub open spec fn clean_tree(t: PrettyTree) -> bool
    decreases t, 0nat,
{
    match t {
        PrettyTree::Empty => true,
        PrettyTree::Value(x) => !holds_reset(x@),
        PrettyTree::String(x) => !holds_reset(debug_quoted(x@)),
        PrettyTree::Branch(b) => !holds_reset(b.label@) && clean_trees(
            b.children@,
            b.children@.len(),
        ),
        PrettyTree::Fragment(f) => clean_trees(f.nodes@, f.nodes@.len()),
    }
}

/// The first `n` trees are clean.
pub open spec fn clean_trees(ts: Seq<PrettyTree>, n: nat) -> bool
    decreases ts, n,
{
    if n == 0 || n > ts.len() {
        true
    } else {
        clean_trees(ts, (n - 1) as nat) && clean_tree(ts[n - 1])
    }
}

proof fn lemma_clean_trees(ts: Seq<PrettyTree>, n: nat, i: int)
    requires
        n <= ts.len(),
        0 <= i < n,
        clean_trees(ts, n),
    ensures
        clean_tree(ts[i]),
    decreases n,
{
    if i < n - 1 {
        lemma_clean_trees(ts, (n - 1) as nat, i);
    }
}

/// Relies on colored's `truecolor` and its `Display`: the text as it is where
/// colouring is off, else after one colour code (digits and semicolons) and
/// before the reset; a text holding a reset code gets more codes inside.
#[verifier::external_body]
fn truecolor(s: &str, red: u8, green: u8, blue: u8) -> (r: String)
    ensures
        !holds_reset(s@) ==> painted(s@, r@),
{
    s.truecolor(red, green, blue).to_string()
}

/// Relies on colored's `bold`, `truecolor` and its `Display`: as `truecolor`,
/// with bold in the same code.
#[verifier::external_body]
fn bold_truecolor(s: &str, red: u8, green: u8, blue: u8) -> (r: String)
    ensures
        !holds_reset(s@) ==> painted(s@, r@),
{
    s.bold().truecolor(red, green, blue).to_string()
}

/// The colour of a depth: red, yellow, green, blue, again.
pub fn depth_color(depth: usize) -> (r: (u8, u8, u8))
    ensures
        depth % 4 == 0 ==> r == (255u8, 0u8, 0u8),
        depth % 4 == 1 ==> r == (252u8, 255u8, 87u8),
        depth % 4 == 2 ==> r == (0u8, 255u8, 0u8),
        depth % 4 == 3 ==> r == (102u8, 255u8, 252u8),
{
    match depth % 4 {
        0 => (255, 0, 0),
        1 => (252, 255, 87),
        2 => (0, 255, 0),
        _ => (102, 255, 252),
    }
}

/// Draws trees line by line, with guide columns on the left.
pub struct Formatter {
    pub columns: Vec<TreeColumn>,
    pub use_color: bool,
}

impl Default for Formatter {
    fn default() -> (r: Formatter)
        ensures
            r.columns@.len() == 0,
            r.use_color,
    {
        Formatter { columns: Vec::new(), use_color: true }
    }
}

impl Formatter {
    pub const COLUMN_LENGTH: usize = 4;

    /// A formatter with no columns yet.
    pub fn new(use_color: bool) -> (r: Formatter)
        ensures
            r.columns@.len() == 0,
            r.use_color == use_color,
    {
        Formatter { columns: Vec::new(), use_color }
    }

    fn settle_then(&self, last: TreeColumn) -> (r: Formatter)
        ensures
            r.use_color == self.use_color,
            r.columns@.len() == self.columns@.len() + 1,
            forall|i: int|
                0 <= i < self.columns@.len() ==> r.columns@[i] == settled(#[trigger] self.columns@[i]),
            r.columns@.last() == last,
    {
        let mut columns: Vec<TreeColumn> = Vec::new();
        let mut i: usize = 0;
        while i < self.columns.len()
            invariant
                0 <= i <= self.columns@.len(),
                columns@.len() == i,
                forall|k: int| 0 <= k < i ==> columns@[k] == settled(#[trigger] self.columns@[k]),
            decreases self.columns@.len() - i,
        {
            let c = match self.columns[i] {
                TreeColumn::DownAndRight => TreeColumn::VerticalBar,
                TreeColumn::DownThenRight => TreeColumn::Empty,
                x => x,
            };
            columns.push(c);
            i = i + 1;
        }
        columns.push(last);
        Formatter { columns, use_color: self.use_color }
    }

    /// The formatter for the last child of a node.
    pub fn down_then_right(&self) -> (r: Formatter)
        ensures
            r.use_color == self.use_color,
            r.columns@.len() == self.columns@.len() + 1,
            forall|i: int|
                0 <= i < self.columns@.len() ==> r.columns@[i] == settled(#[trigger] self.columns@[i]),
            r.columns@.last() == TreeColumn::DownThenRight,
    {
        self.settle_then(TreeColumn::DownThenRight)
    }

    /// The formatter for a child of a node that has more children after it.
    pub fn down_and_right(&self) -> (r: Formatter)
        ensures
            r.use_color == self.use_color,
            r.columns@.len() == self.columns@.len() + 1,
            forall|i: int|
                0 <= i < self.columns@.len() ==> r.columns@[i] == settled(#[trigger] self.columns@[i]),
            r.columns@.last() == TreeColumn::DownAndRight,
    {
        self.settle_then(TreeColumn::DownAndRight)
    }

    pub fn with_column(&self, column: TreeColumn) -> (r: Formatter)
        ensures
            r.use_color == self.use_color,
            r.columns@ == self.columns@.push(column),
    {
        let mut columns: Vec<TreeColumn> = Vec::new();
        let mut i: usize = 0;
        while i < self.columns.len()
            invariant
                0 <= i <= self.columns@.len(),
                columns@ == self.columns@.take(i as int),
            decreases self.columns@.len() - i,
        {
            columns.push(self.columns[i]);
            i = i + 1;
            proof {
                assert(columns@ =~= self.columns@.take(i as int));
            }
        }
        proof {
            assert(columns@ =~= self.columns@);
        }
        columns.push(column);
        Formatter { columns, use_color: self.use_color }
    }

    pub fn replace_last_column(self, column: TreeColumn) -> (r: Formatter)
        ensures
            r.use_color == self.use_color,
            self.columns@.len() == 0 ==> r.columns@ == self.columns@,
            self.columns@.len() > 0 ==> r.columns@ == self.columns@.update(
                self.columns@.len() - 1,
                column,
            ),
    {
        let mut columns = self.columns;
        let n = columns.len();
        if n > 0 {
            columns.set(n - 1, column);
        }
        Formatter { columns, use_color: self.use_color }
    }

    pub fn drop_last_column(self) -> (r: Formatter)
        ensures
            r.use_color == self.use_color,
            self.columns@.len() == 0 ==> r.columns@ == self.columns@,
            self.columns@.len() > 0 ==> r.columns@ == self.columns@.drop_last(),
    {
        let mut columns = self.columns;
        columns.pop();
        Formatter { columns, use_color: self.use_color }
    }

    /// The text in the colour of its depth (red, yellow, green, blue, again),
    /// or as it is when colour is off.
    pub fn color(&self, depth: usize, s: &str) -> (r: String)
        ensures
            !self.use_color ==> r@ == s@,
            !holds_reset(s@) ==> painted(s@, r@),
    {
        if !self.use_color {
            return s.to_owned();
        }
        let (red, green, blue) = depth_color(depth);
        truecolor(s, red, green, blue)
    }

    /// The text in bold and in the colour of its depth, or as it is when colour
    /// is off.
    pub fn color_bold(&self, depth: usize, s: &str) -> (r: String)
        ensures
            !self.use_color ==> r@ == s@,
            !holds_reset(s@) ==> painted(s@, r@),
    {
        if !self.use_color {
            return s.to_owned();
        }
        let (red, green, blue) = depth_color(depth);
        bold_truecolor(s, red, green, blue)
    }

    /// The guide in front of a line.
    pub fn leading(&self) -> (r: String)
        ensures
            !self.use_color ==> r@ == plain_leading(self.columns@),
            drawn_as(plain_leading(self.columns@), r@),
    {
        let depth = self.columns.len();
        proof {
            lemma_drawn_piece(seq![], seq![]);
        }
        if depth == 0 {
            let e = String::new();
            proof {
                assert(e@ =~= seq![]);
            }
            return e;
        }
        let mut out = String::new();
        let mut i: usize = 0;
        let gap = "  ";
        proof {
            reveal_strlit("  ");
            assert(gap@ =~= seq![' ', ' ']);
            assert(out@ =~= joined_glyphs(self.columns@.take(0)));
            lemma_drawn_piece(gap@, gap@);
        }
        while i < depth
            invariant
                depth == self.columns@.len(),
                gap@ == seq![' ', ' '],
                0 <= i <= depth,
                !self.use_color ==> out@ == joined_glyphs(self.columns@.take(i as int)),
                drawn_as(joined_glyphs(self.columns@.take(i as int)), out@),
                drawn_as(seq![' ', ' '], seq![' ', ' ']),
            decreases depth - i,
        {
            let g = vec![self.columns[i].glyph()];
            let piece = self.color(i, string_of(&g).as_str());
            let ghost before = out@;
            proof {
                assert(g@ =~= seq![glyph_of(self.columns@[i as int])]);
                lemma_drawn_piece(g@, piece@);
            }
            if i > 0 {
                out = concat(out.as_str(), gap);
            }
            out = concat(out.as_str(), piece.as_str());
            i = i + 1;
            proof {
                assert(self.columns@.take(i as int).drop_last() =~= self.columns@.take(i as int - 1));
                assert(self.columns@.take(i as int).last() == self.columns@[i - 1]);
                let prev = joined_glyphs(self.columns@.take(i - 1));
                if i == 1 {
                    lemma_drawn_concat(prev, before, g@, piece@);
                    assert(prev =~= seq![]);
                    assert(prev + g@ =~= joined_glyphs(self.columns@.take(i as int)));
                } else {
                    lemma_drawn_concat(prev, before, seq![' ', ' '], seq![' ', ' ']);
                    lemma_drawn_concat(prev + seq![' ', ' '], before + seq![' ', ' '], g@, piece@);
                    assert(prev + seq![' ', ' '] + g@ =~= joined_glyphs(self.columns@.take(i as int)));
                }
                if !self.use_color {
                    assert(g@ =~= seq![glyph_of(self.columns@[i - 1])]);
                    assert(self.columns@.take(i as int).last() == self.columns@[i - 1]);
                    if i == 1 {
                        assert(out@ =~= joined_glyphs(self.columns@.take(i as int)));
                    } else {
                        assert(out@ =~= before + seq![' ', ' '] + seq![glyph_of(self.columns@[i - 1])]);
                        assert(out@ =~= joined_glyphs(self.columns@.take(i as int)));
                    }
                }
            }
        }
        let sep_depth: usize = if depth > 1 { depth - 1 } else { 0 };
        let connector = vec!['╼', '\u{2009}'];
        let sep = self.color(sep_depth, string_of(&connector).as_str());
        proof {
            assert(self.columns@.take(depth as int) =~= self.columns@);
            assert(connector@ =~= seq!['╼', '\u{2009}']);
            lemma_drawn_piece(connector@, sep@);
            lemma_drawn_concat(joined_glyphs(self.columns@), out@, connector@, sep@);
        }
        concat(out.as_str(), sep.as_str())
    }

    /// A line showing `value` after the guide.
    pub fn leaf(&self, value: &str) -> (r: String)
        ensures
            !self.use_color ==> r@ == plain_leading(self.columns@) + value@,
            !holds_reset(value@) ==> drawn_as(plain_leading(self.columns@) + value@, r@),
    {
        let depth = self.columns.len();
        let leading = self.leading();
        let trailing = self.color_bold(depth, value);
        proof {
            if !holds_reset(value@) {
                lemma_drawn_piece(value@, trailing@);
                lemma_drawn_concat(plain_leading(self.columns@), leading@, value@, trailing@);
            }
        }
        concat(leading.as_str(), trailing.as_str())
    }

    /// The label line, then each child drawn one level deeper, one per line.
    pub fn branch(&self, label: &str, children: &Vec<PrettyTree>) -> (r: String)
        ensures
            !self.use_color ==> r@ == plain_leading(self.columns@) + label@ + plain_children(
                children@,
                self.columns@,
                children@.len(),
            ),
            !holds_reset(label@) && clean_trees(children@, children@.len()) ==> drawn_as(
                plain_leading(self.columns@) + label@ + plain_children(
                    children@,
                    self.columns@,
                    children@.len(),
                ),
                r@,
            ),
        decreases children, 0nat,
    {
        let ghost clean = !holds_reset(label@) && clean_trees(children@, children@.len());
        let ghost cols = self.columns@;
        let nl = "\n";
        proof {
            reveal_strlit("\n");
            assert(nl@ =~= seq!['\n']);
        }
        let label_line = self.leaf(label);
        proof {
            lemma_drawn_piece(nl@, nl@);
        }
        if children.len() == 0 {
            proof {
                assert(label_line@ =~= label_line@ + plain_children(children@, cols, 0));
                assert(plain_leading(cols) + label@ =~= plain_leading(cols) + label@
                    + plain_children(children@, cols, 0));
            }
            return label_line;
        }
        if children.len() == 1 {
            let below = self.down_then_right();
            proof {
                assert(below.columns@ =~= child_columns(cols, true));
            }
            let child = children[0].format(&below);
            let head = concat(label_line.as_str(), nl);
            proof {
                assert(plain_children(children@, cols, 0) =~= seq![]);
                if clean {
                    lemma_clean_trees(children@, 1, 0);
                    let pl = plain_leading(cols) + label@;
                    lemma_drawn_concat(pl, label_line@, nl@, nl@);
                    lemma_drawn_concat(pl + nl@, label_line@ + nl@, plain_format(children@[0], below.columns@), child@);
                    assert(pl + nl@ + plain_format(children@[0], below.columns@) =~= pl
                        + plain_children(children@, cols, 1));
                }
            }
            return concat(head.as_str(), child.as_str());
        }
        let last = children.len() - 1;
        let mut out = label_line;
        let mut i: usize = 0;
        proof {
            assert(out@ =~= out@ + plain_children(children@, cols, 0));
        }
        while i < children.len()
            invariant
                cols == self.columns@,
                nl@ == seq!['\n'],
                last == children@.len() - 1,
                0 <= i <= children@.len(),
                !self.use_color ==> out@ == plain_leading(cols) + label@ + plain_children(
                    children@,
                    cols,
                    i as nat,
                ),
                drawn_as(nl@, nl@),
                clean == (!holds_reset(label@) && clean_trees(children@, children@.len())),
                clean ==> drawn_as(
                    plain_leading(cols) + label@ + plain_children(children@, cols, i as nat),
                    out@,
                ),
            decreases children@.len() - i,
        {
            let below = if i == last {
                self.down_then_right()
            } else {
                self.down_and_right()
            };
            proof {
                assert(below.columns@ =~= child_columns(cols, i + 1 == children@.len()));
            }
            let child = children[i].format(&below);
            let head = concat(out.as_str(), nl);
            let ghost before = out@;
            out = concat(head.as_str(), child.as_str());
            i = i + 1;
            proof {
                if clean {
                    lemma_clean_trees(children@, children@.len(), i - 1);
                    let pl = plain_leading(cols) + label@ + plain_children(children@, cols, (i - 1) as nat);
                    lemma_drawn_concat(pl, before, nl@, nl@);
                    lemma_drawn_concat(pl + nl@, before + nl@, plain_format(children@[i - 1], below.columns@), child@);
                    assert(pl + nl@ + plain_format(children@[i - 1], below.columns@) =~= plain_leading(cols)
                        + label@ + plain_children(children@, cols, i as nat));
                }
                if !self.use_color {
                    assert(out@ =~= plain_leading(cols) + label@ + plain_children(
                        children@,
                        cols,
                        i as nat,
                    ));
                }
            }
        }
        out
    }

    /// A fragment is drawn as a branch labelled `[]`.
    pub fn fragment(&self, list: &Vec<PrettyTree>) -> (r: String)
        ensures
            clean_trees(list@, list@.len()) ==> drawn_as(
                plain_leading(self.columns@) + seq!['[', ']'] + plain_children(
                    list@,
                    self.columns@,
                    list@.len(),
                ),
                r@,
            ),
            !self.use_color ==> r@ == plain_leading(self.columns@) + seq!['[', ']'] + plain_children(
                list@,
                self.columns@,
                list@.len(),
            ),
        decreases list, 1nat,
    {
        let label = "[]";
        proof {
            reveal_strlit("[]");
            assert(label@ =~= seq!['[', ']']);
        }
        self.branch(label, list)
    }
}

impl PrettyTree {
    /// The tree drawn with `formatter`'s columns in front: nothing for an empty tree.
    pub fn format(&self, formatter: &Formatter) -> (r: String)
        ensures
            self is Empty ==> r@.len() == 0,
            !formatter.use_color ==> r@ == plain_format(*self, formatter.columns@),
            clean_tree(*self) ==> drawn_as(plain_format(*self, formatter.columns@), r@),
        decreases self, 0nat,
    {
        match self {
            PrettyTree::Empty => {
                let e = String::new();
                proof {
                    lemma_drawn_piece(seq![], seq![]);
                    assert(e@ =~= seq![]);
                }
                e
            },
            PrettyTree::Value(x) => formatter.leaf(x.as_str()),
            PrettyTree::String(x) => {
                let shown = quoted(x.as_str());
                formatter.leaf(shown.as_str())
            },
            PrettyTree::Branch(x) => x.format(formatter),
            PrettyTree::Fragment(x) => x.format(formatter),
        }
    }
}

impl PrettyValue {
    pub fn format(&self, formatter: &Formatter) -> (r: String)
        ensures
            !formatter.use_color ==> r@ == plain_leading(formatter.columns@) + self.text@,
            !holds_reset(self.text@) ==> drawn_as(plain_leading(formatter.columns@) + self.text@, r@),
    {
        formatter.leaf(self.text.as_str())
    }
}

impl PrettyBranch {
    pub fn format(&self, formatter: &Formatter) -> (r: String)
        ensures
            !formatter.use_color ==> r@ == plain_leading(formatter.columns@) + self.label@
                + plain_children(self.children@, formatter.columns@, self.children@.len()),
            !holds_reset(self.label@) && clean_trees(self.children@, self.children@.len())
                ==> drawn_as(
                plain_leading(formatter.columns@) + self.label@ + plain_children(
                    self.children@,
                    formatter.columns@,
                    self.children@.len(),
                ),
                r@,
            ),
        decreases self, 0nat,
    {
        formatter.branch(self.label.as_str(), &self.children)
    }
}

impl PrettyFragment {
    pub fn format(&self, formatter: &Formatter) -> (r: String)
        ensures
            !formatter.use_color ==> r@ == plain_leading(formatter.columns@) + seq!['[', ']']
                + plain_children(self.nodes@, formatter.columns@, self.nodes@.len()),
            clean_trees(self.nodes@, self.nodes@.len()) ==> drawn_as(
                plain_leading(formatter.columns@) + seq!['[', ']'] + plain_children(
                    self.nodes@,
                    formatter.columns@,
                    self.nodes@.len(),
                ),
                r@,
            ),
        decreases self, 0nat,
    {
        formatter.fragment(&self.nodes)
    }
}

} // verus!
