//! Screen geometry and the drawing instructions the panels produce.

use vstd::prelude::*;

verus! {

/// A rectangle of terminal cells.
#[derive(Debug, Clone, Copy, PartialEq, Eq, Structural)]
pub struct Rect {
    pub x: u16,
    pub y: u16,
    pub width: u16,
    pub height: u16,
}

/// `a + b`, or `u16::MAX` when that does not fit.
pub open spec fn sat_add(a: u16, b: u16) -> u16 {
    if a + b > 65535 { 65535u16 } else { (a + b) as u16 }
}

/// `a - b`, or 0 when that is negative.
pub open spec fn sat_sub(a: u16, b: u16) -> u16 {
    if a < b { 0u16 } else { (a - b) as u16 }
}

/// The smaller of two numbers.
pub open spec fn min_u16(a: u16, b: u16) -> u16 {
    if a < b { a } else { b }
}

/// `a + b`, or `u16::MAX` when that does not fit.
pub fn saturating_add(a: u16, b: u16) -> (r: u16)
    ensures
        r == sat_add(a, b),
{
    if a as u32 + b as u32 > 65535 { 65535 } else { a + b }
}

/// `a - b`, or 0 when that is negative.
pub fn saturating_sub(a: u16, b: u16) -> (r: u16)
    ensures
        r == sat_sub(a, b),
{
    if a < b { 0 } else { a - b }
}

/// The smaller of two numbers.
pub fn min(a: u16, b: u16) -> (r: u16)
    ensures
        r == min_u16(a, b),
{
    if a < b { a } else { b }
}

impl Rect {
    /// The column just right of the rectangle, saturating at the screen's limit.
    pub open spec fn spec_right(&self) -> u16 {
        sat_add(self.x, self.width)
    }

    /// The column just right of the rectangle, saturating at the screen's limit.
    #[verifier::when_used_as_spec(spec_right)]
    pub fn right(&self) -> (r: u16)
        ensures
            r == self.spec_right(),
    {
        saturating_add(self.x, self.width)
    }

    /// Whether the rectangle holds no cell.
    pub open spec fn spec_is_empty(&self) -> bool {
        self.width == 0 || self.height == 0
    }

    /// Whether the rectangle holds no cell.
    #[verifier::when_used_as_spec(spec_is_empty)]
    pub fn is_empty(&self) -> (r: bool)
        ensures
            r == self.spec_is_empty(),
    {
        self.width == 0 || self.height == 0
    }
}

/// The palette role a piece of the panel is drawn in.
#[derive(Debug, Clone, Copy, PartialEq, Eq, Structural)]
pub enum Tone {
    /// The dim line that separates sections.
    Divider,
    /// Section titles: muted and bold.
    Heading,
    /// Buttons and forwarded ports.
    Accent,
    /// Notes such as an empty list: muted and dim.
    Note,
    /// Ordinary text.
    Text,
    /// Muted text.
    Muted,
    /// The stop button.
    Alert,
    /// The background of the row of the focused space.
    ActiveRow,
}

/// One drawing instruction.
#[derive(Debug, PartialEq, Eq)]
pub enum DrawOp {
    /// Writes `text` from column `x` of row `y`, cut at `width` cells.
    Text { x: u16, y: u16, width: u16, text: String, tone: Tone },
    /// Paints the background of `area`.
    Fill { area: Rect, tone: Tone },
}

/// A drawing instruction with its text as characters.
pub enum DrawOpView {
    Text { x: u16, y: u16, width: u16, text: Seq<char>, tone: Tone },
    Fill { area: Rect, tone: Tone },
}

impl View for DrawOp {
    type V = DrawOpView;

    open spec fn view(&self) -> DrawOpView {
        match self {
            DrawOp::Text { x, y, width, text, tone } => DrawOpView::Text { x: *x, y: *y, width: *width, text: text@, tone: *tone },
            DrawOp::Fill { area, tone } => DrawOpView::Fill { area: *area, tone: *tone },
        }
    }
}

/// A space (workspace) of the client, as the panels read it.
#[derive(Debug, Clone, PartialEq, Eq)]
pub struct ShellWorkspace {
    pub workspace_id: String,
    pub label: String,
    pub focused: bool,
}

/// The fields of a `ShellWorkspace`, with strings as characters.
pub struct ShellWorkspaceView {
    pub workspace_id: Seq<char>,
    pub label: Seq<char>,
    pub focused: bool,
}

impl View for ShellWorkspace {
    type V = ShellWorkspaceView;

    open spec fn view(&self) -> ShellWorkspaceView {
        ShellWorkspaceView { workspace_id: self.workspace_id@, label: self.label@, focused: self.focused }
    }
}

/// `n` copies of the horizontal line character.
pub open spec fn rule_line(n: nat) -> Seq<char> {
    Seq::new(n, |i: int| '─')
}

/// A horizontal line `n` cells wide.
pub fn horizontal_rule(n: u16) -> (s: String)
    ensures
        s@ == rule_line(n as nat),
{
    let mut s = String::new();
    let mut i: u16 = 0;
    while i < n
        invariant
            i <= n,
            s@ == rule_line(i as nat),
        decreases n - i,
    {
        crate::text::push_char(&mut s, '─');
        i = i + 1;
        assert(s@ =~= rule_line(i as nat));
    }
    s
}

/// The divider and title every sidebar section starts with.
pub open spec fn section_header(area: Rect, title: Seq<char>) -> Seq<DrawOpView> {
    seq![
        DrawOpView::Text { x: area.x, y: area.y, width: area.width, text: rule_line(area.width as nat), tone: Tone::Divider },
        DrawOpView::Text { x: area.x, y: (area.y + 1) as u16, width: area.width, text: title, tone: Tone::Heading },
    ]
}

/// The views of a sequence of drawing instructions.
pub open spec fn op_views(ops: Seq<DrawOp>) -> Seq<DrawOpView> {
    ops.map_values(|o: DrawOp| o@)
}

/// Draws the divider and the title of a section.
pub fn push_section_header(ops: &mut Vec<DrawOp>, area: Rect, title: &str)
    requires
        area.y + 1 <= 65535,
    ensures
        op_views(final(ops)@) == op_views(old(ops)@) + section_header(area, title@),
{
    let ghost before = op_views(ops@);
    ops.push(DrawOp::Text { x: area.x, y: area.y, width: area.width, text: horizontal_rule(area.width), tone: Tone::Divider });
    ops.push(DrawOp::Text { x: area.x, y: area.y + 1, width: area.width, text: String::from_str(title), tone: Tone::Heading });
    assert(op_views(ops@) =~= before + section_header(area, title@));
}

/// The position of the first space with id `id`, if any.
pub open spec fn find_workspace_by_id(ws: Seq<ShellWorkspaceView>, id: Seq<char>) -> Option<int> {
    if exists|k: int| 0 <= k < ws.len() && ws[k].workspace_id == id {
        Some(choose|k: int| 0 <= k < ws.len() && ws[k].workspace_id == id && forall|j: int| 0 <= j < k ==> ws[j].workspace_id != id)
    } else {
        None
    }
}

/// The position of the first space labelled `label`, if any.
pub open spec fn find_workspace_by_label(ws: Seq<ShellWorkspaceView>, label: Seq<char>) -> Option<int> {
    if exists|k: int| 0 <= k < ws.len() && ws[k].label == label {
        Some(choose|k: int| 0 <= k < ws.len() && ws[k].label == label && forall|j: int| 0 <= j < k ==> ws[j].label != label)
    } else {
        None
    }
}

/// The views of a sequence of spaces.
pub open spec fn workspace_views(ws: Seq<ShellWorkspace>) -> Seq<ShellWorkspaceView> {
    ws.map_values(|w: ShellWorkspace| w@)
}

/// Finds the first space with id `id`.
pub fn workspace_with_id(ws: &Vec<ShellWorkspace>, id: &String) -> (r: Option<usize>)
    ensures
        match r {
            Some(k) => find_workspace_by_id(workspace_views(ws@), id@) == Some(k as int),
            None => find_workspace_by_id(workspace_views(ws@), id@) is None,
        },
        r matches Some(k) ==> k < ws.len(),
{
    let ghost wv = workspace_views(ws@);
    let mut k: usize = 0;
    while k < ws.len()
        invariant
            wv == workspace_views(ws@),
            k <= ws.len(),
            forall|j: int| 0 <= j < k ==> wv[j].workspace_id != id@,
        decreases ws.len() - k,
    {
        if ws[k].workspace_id == *id {
            assert(wv[k as int].workspace_id == id@);
            let ghost f = find_workspace_by_id(wv, id@)->0;
            assert(f == k as int) by {
                if f > k as int {
                    assert(wv[k as int].workspace_id == id@);
                }
            }
            return Some(k);
        }
        k = k + 1;
    }
    None
}

/// Finds the first space labelled `label`.
pub fn workspace_with_label(ws: &Vec<ShellWorkspace>, label: &String) -> (r: Option<usize>)
    ensures
        match r {
            Some(k) => find_workspace_by_label(workspace_views(ws@), label@) == Some(k as int),
            None => find_workspace_by_label(workspace_views(ws@), label@) is None,
        },
        r matches Some(k) ==> k < ws.len(),
{
    let ghost wv = workspace_views(ws@);
    let mut k: usize = 0;
    while k < ws.len()
        invariant
            wv == workspace_views(ws@),
            k <= ws.len(),
            forall|j: int| 0 <= j < k ==> wv[j].label != label@,
        decreases ws.len() - k,
    {
        if ws[k].label == *label {
            assert(wv[k as int].label == label@);
            let ghost f = find_workspace_by_label(wv, label@)->0;
            assert(f == k as int) by {
                if f > k as int {
                    assert(wv[k as int].label == label@);
                }
            }
            return Some(k);
        }
        k = k + 1;
    }
    None
}

} // verus!
