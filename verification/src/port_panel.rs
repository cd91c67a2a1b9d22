//! The ports section of the client sidebar: its rows, its height, and what it draws.

use vstd::prelude::*;

use crate::forwards::{ClientEndpointId, PortForwards};
use crate::layout::{
    find_workspace_by_id, min, min_u16, op_views, push_section_header, sat_sub, saturating_sub, section_header,
    workspace_views, workspace_with_id, DrawOp, DrawOpView, Rect, ShellWorkspace, ShellWorkspaceView, Tone,
};
use crate::schema::{views, PortInfo, PortInfoView};
use crate::text::{decimal, push_decimal};

verus! {

/// What a click in the ports section does.
#[derive(Debug, Clone, Copy, PartialEq, Eq, Structural)]
pub enum PortTarget {
    Open(u16),
    /// Kills the pane process listening on the port.
    Stop { port: u16, pid: u32 },
    /// Closes a manual tunnel; the remote listener is not ours to kill.
    Close(u16),
    /// Asks for a port number to forward by hand.
    Forward,
}

/// One line of the ports section: a pane listener (by its position in the
/// port list), or a manual forward with no pane owner.
#[derive(Debug, Clone, Copy, PartialEq, Eq, Structural)]
pub struct PortRow {
    pub port: u16,
    pub pane: Option<usize>,
    pub local_port: Option<u16>,
}

/// Whether some pane listener has port `p`.
pub open spec fn pane_has_port(ports: Seq<PortInfoView>, p: u16) -> bool {
    exists|i: int| 0 <= i < ports.len() && ports[i].port == p
}

/// The local port of the tunnel for `p` from machine `e`, if there is one.
pub open spec fn forward_local(m: Map<(Option<Seq<char>>, u16), (u16, bool)>, e: Option<Seq<char>>, p: u16) -> Option<u16> {
    if m.dom().contains((e, p)) { Some(m[(e, p)].0) } else { None }
}

/// The tunnels from machine `e` that no pane listener owns: added by hand.
pub open spec fn manual_ports(m: Map<(Option<Seq<char>>, u16), (u16, bool)>, e: Option<Seq<char>>, ports: Seq<PortInfoView>) -> Set<u16> {
    Set::new(|p: u16| m.dom().contains((e, p)) && !pane_has_port(ports, p))
}

/// The rows are one per pane listener, in list order, each with its tunnel's
/// local port, then one per manual tunnel of the machine, by ascending port.
pub open spec fn port_rows_spec(rows: Seq<PortRow>, ports: Seq<PortInfoView>, e: Option<Seq<char>>, m: Map<(Option<Seq<char>>, u16), (u16, bool)>) -> bool {
    &&& rows.len() >= ports.len()
    &&& forall|i: int| 0 <= i < ports.len() ==> #[trigger] rows[i] == (PortRow {
        port: ports[i].port,
        pane: Some(i as usize),
        local_port: forward_local(m, e, ports[i].port),
    })
    &&& forall|i: int| ports.len() <= i < rows.len() ==> (#[trigger] rows[i]).pane is None
        && rows[i].local_port == forward_local(m, e, rows[i].port)
    &&& forall|i: int, j: int| ports.len() <= i < j < rows.len() ==> (#[trigger] rows[i]).port < (#[trigger] rows[j]).port
    &&& forall|p: u16| #[trigger] manual_ports(m, e, ports).contains(p) <==> exists|i: int| ports.len() <= i < rows.len() && rows[i].port == p
}

fn has_pane_port(ports: &Vec<PortInfo>, p: u16) -> (r: bool)
    ensures
        r == pane_has_port(views(ports@), p),
{
    let mut i: usize = 0;
    while i < ports.len()
        invariant
            i <= ports.len(),
            forall|j: int| 0 <= j < i ==> ports@[j].port != p,
        decreases ports.len() - i,
    {
        if ports[i].port == p {
            assert(views(ports@)[i as int].port == p);
            return true;
        }
        i = i + 1;
    }
    assert forall|j: int| 0 <= j < views(ports@).len() implies views(ports@)[j].port != p by {
        assert(views(ports@)[j] == ports@[j]@);
    }
    false
}

/// Inserts `item` into `v`, which stays sorted by strictly ascending port.
fn insert_by_port(v: &mut Vec<(u16, u16)>, item: (u16, u16))
    requires
        forall|a: int, b: int| 0 <= a < b < old(v)@.len() ==> (#[trigger] old(v)@[a]).0 < (#[trigger] old(v)@[b]).0,
        forall|a: int| 0 <= a < old(v)@.len() ==> (#[trigger] old(v)@[a]).0 != item.0,
    ensures
        final(v)@.len() == old(v)@.len() + 1,
        forall|a: int, b: int| 0 <= a < b < final(v)@.len() ==> (#[trigger] final(v)@[a]).0 < (#[trigger] final(v)@[b]).0,
        exists|a: int| 0 <= a < final(v)@.len() && final(v)@[a] == item,
        forall|b: int| 0 <= b < old(v)@.len() ==> exists|a: int| 0 <= a < final(v)@.len() && final(v)@[a] == #[trigger] old(v)@[b],
        forall|a: int| 0 <= a < final(v)@.len() ==> #[trigger] final(v)@[a] == item || exists|b: int| 0 <= b < old(v)@.len() && old(v)@[b] == final(v)@[a],
{
    let mut pos: usize = 0;
    while pos < v.len() && v[pos].0 < item.0
        invariant
            pos <= v.len(),
            forall|a: int| 0 <= a < pos ==> (#[trigger] v@[a]).0 < item.0,
        decreases v.len() - pos,
    {
        pos = pos + 1;
    }
    let ghost before = v@;
    proof {
        if pos < before.len() {
            assert(before[pos as int].0 > item.0);
        }
    }
    v.insert(pos, item);
    proof {
        let mm = v@;
        assert forall|a: int, b: int| 0 <= a < b < mm.len() implies (#[trigger] mm[a]).0 < (#[trigger] mm[b]).0 by {
            if b < pos {
                assert(mm[a] == before[a] && mm[b] == before[b]);
            } else if b == pos {
                assert(mm[a] == before[a]);
            } else if a < pos {
                assert(mm[a] == before[a] && mm[b] == before[b - 1]);
            } else if a == pos {
                assert(mm[b] == before[b - 1]);
                if b - 1 > pos {
                    assert(before[pos as int].0 < before[b - 1].0);
                }
            } else {
                assert(mm[a] == before[a - 1] && mm[b] == before[b - 1]);
            }
        }
        assert(mm[pos as int] == item);
        assert forall|b: int| 0 <= b < before.len() implies exists|a: int| 0 <= a < mm.len() && mm[a] == #[trigger] before[b] by {
            if b < pos {
                assert(mm[b] == before[b]);
            } else {
                assert(mm[b + 1] == before[b]);
            }
        }
        assert forall|a: int| 0 <= a < mm.len() implies #[trigger] mm[a] == item || exists|b: int| 0 <= b < before.len() && before[b] == mm[a] by {
            if a < pos {
                assert(mm[a] == before[a]);
            } else if a > pos {
                assert(mm[a] == before[a - 1]);
            }
        }
    }
}

/// The rows of the ports section for machine `endpoint`.
pub fn port_rows<H>(ports: &Vec<PortInfo>, endpoint: &ClientEndpointId, forwards: &PortForwards<H>) -> (rows: Vec<PortRow>)
    requires
        forwards.wf(),
    ensures
        port_rows_spec(rows@, views(ports@), endpoint@, forwards.map()),
{
    let ghost pv = views(ports@);
    let ghost m = forwards.map();
    let ghost e = endpoint@;
    let mut rows: Vec<PortRow> = Vec::new();
    let mut i: usize = 0;
    while i < ports.len()
        invariant
            pv == views(ports@),
            forwards.wf(),
            m == forwards.map(),
            e == endpoint@,
            i <= ports.len(),
            rows.len() == i,
            forall|k: int| 0 <= k < i ==> #[trigger] rows@[k] == (PortRow {
                port: pv[k].port,
                pane: Some(k as usize),
                local_port: forward_local(m, e, pv[k].port),
            }),
        decreases ports.len() - i,
    {
        let port = ports[i].port;
        rows.push(PortRow { port, pane: Some(i), local_port: forwards.local_port(endpoint, port) });
        i = i + 1;
    }
    let all = forwards.for_endpoint(endpoint);
    // Manual tunnels, kept sorted by remote port as they are inserted.
    let mut manual: Vec<(u16, u16)> = Vec::new();
    let mut k: usize = 0;
    while k < all.len()
        invariant
            pv == views(ports@),
            m == forwards.map(),
            e == endpoint@,
            k <= all.len(),
            forall|a: int| 0 <= a < all@.len() ==> m.dom().contains((e, #[trigger] all@[a].0)) && m[(e, all@[a].0)].0 == all@[a].1,
            forall|a: int, b: int| 0 <= a < all@.len() && 0 <= b < all@.len() && a != b ==> #[trigger] all@[a].0 != #[trigger] all@[b].0,
            forall|a: int, b: int| 0 <= a < b < manual@.len() ==> (#[trigger] manual@[a]).0 < (#[trigger] manual@[b]).0,
            forall|a: int| 0 <= a < manual@.len() ==> m.dom().contains((e, (#[trigger] manual@[a]).0)) && m[(e, manual@[a].0)].0 == manual@[a].1
                && !pane_has_port(pv, manual@[a].0),
            forall|a: int| 0 <= a < manual@.len() ==> exists|b: int| 0 <= b < k && all@[b].0 == (#[trigger] manual@[a]).0,
            forall|b: int| 0 <= b < k && !pane_has_port(pv, (#[trigger] all@[b]).0) ==> exists|a: int| 0 <= a < manual@.len() && manual@[a].0 == all@[b].0,
        decreases all.len() - k,
    {
        let (p, local) = all[k];
        if !has_pane_port(ports, p) {
            let ghost before = manual@;
            proof {
                assert forall|a: int| 0 <= a < before.len() implies (#[trigger] before[a]).0 != p by {
                    let b = choose|b: int| 0 <= b < k && all@[b].0 == before[a].0;
                    assert(all@[b].0 != all@[k as int].0);
                }
            }
            insert_by_port(&mut manual, (p, local));
            proof {
                let mm = manual@;
                assert forall|a: int| 0 <= a < mm.len() implies m.dom().contains((e, (#[trigger] mm[a]).0)) && m[(e, mm[a].0)].0 == mm[a].1
                    && !pane_has_port(pv, mm[a].0) by {
                    if mm[a] != (p, local) {
                        let b = choose|b: int| 0 <= b < before.len() && before[b] == mm[a];
                    }
                }
                assert forall|a: int| 0 <= a < mm.len() implies exists|b: int| 0 <= b < k + 1 && all@[b].0 == (#[trigger] mm[a]).0 by {
                    if mm[a] != (p, local) {
                        let c = choose|c: int| 0 <= c < before.len() && before[c] == mm[a];
                        let b = choose|b: int| 0 <= b < k && all@[b].0 == (#[trigger] before[c]).0;
                    } else {
                        assert(all@[k as int].0 == mm[a].0);
                    }
                }
                assert forall|b: int| 0 <= b < k + 1 && !pane_has_port(pv, (#[trigger] all@[b]).0) implies exists|a: int| 0 <= a < mm.len() && mm[a].0 == all@[b].0 by {
                    if b < k {
                        let c = choose|c: int| 0 <= c < before.len() && before[c].0 == all@[b].0;
                        let a = choose|a: int| 0 <= a < mm.len() && mm[a] == before[c];
                    } else {
                        let a = choose|a: int| 0 <= a < mm.len() && mm[a] == (p, local);
                    }
                }
            }
        }
        k = k + 1;
    }
    let ghost np = rows@.len();
    let mut j: usize = 0;
    while j < manual.len()
        invariant
            pv == views(ports@),
            m == forwards.map(),
            e == endpoint@,
            np == ports@.len(),
            j <= manual.len(),
            rows@.len() == np + j,
            forall|a: int| 0 <= a < np ==> #[trigger] rows@[a] == (PortRow {
                port: pv[a].port,
                pane: Some(a as usize),
                local_port: forward_local(m, e, pv[a].port),
            }),
            forall|a: int| 0 <= a < j ==> #[trigger] rows@[np + a] == (PortRow { port: manual@[a].0, pane: None, local_port: Some(manual@[a].1) }),
        decreases manual.len() - j,
    {
        rows.push(PortRow { port: manual[j].0, pane: None, local_port: Some(manual[j].1) });
        j = j + 1;
    }
    proof {
        let r = rows@;
        assert forall|i: int| np <= i < r.len() implies (#[trigger] r[i]).pane is None
            && r[i].local_port == forward_local(m, e, r[i].port) by {
            assert(r[np + (i - np)] == r[i]);
        }
        assert forall|a: int, b: int| np <= a < b < r.len() implies (#[trigger] r[a]).port < (#[trigger] r[b]).port by {
            assert(r[np + (a - np)] == r[a]);
            assert(r[np + (b - np)] == r[b]);
            assert(manual@[a - np].0 < manual@[b - np].0);
        }
        assert forall|p: u16| #[trigger] manual_ports(m, e, pv).contains(p) <==> exists|i: int| np <= i < r.len() && r[i].port == p by {
            if manual_ports(m, e, pv).contains(p) {
                let b = choose|b: int| 0 <= b < all@.len() && all@[b].0 == p;
                let a = choose|a: int| 0 <= a < manual@.len() && manual@[a].0 == all@[b].0;
                assert(r[np + a].port == p);
            }
            if exists|i: int| np <= i < r.len() && r[i].port == p {
                let i = choose|i: int| np <= i < r.len() && r[i].port == p;
                assert(r[np + (i - np)] == r[i]);
                assert(manual@[i - np].0 == p);
            }
        }
    }
    rows
}

/// The height of the ports section: divider, title, spacer and at least one
/// content line, capped at a third of the space available. Hidden only when
/// the machine cannot report ports at all.
pub open spec fn spec_ports_section_height(supported: bool, rows: usize, available: u16) -> u16 {
    if !supported {
        0
    } else {
        let wanted = ((if rows > 1 { rows as int } else { 1 }) % 65536) + 3;
        if wanted < available / 3 { wanted as u16 } else { (available / 3) as u16 }
    }
}

/// The number of terminal rows the ports section takes.
pub fn ports_section_height(supported: bool, rows: usize, available: u16) -> (h: u16)
    requires
        ((if rows > 1 { rows as int } else { 1 }) % 65536) + 3 <= 65535,
    ensures
        h == spec_ports_section_height(supported, rows, available),
{
    if !supported {
        return 0;
    }
    let at_least_one: usize = if rows > 1 { rows } else { 1 };
    let lines: u16 = (at_least_one % 65536) as u16;
    min(lines + 3, available / 3)
}


/// Law of the section height: the section is hidden exactly when the
/// machine cannot report ports or there is not room for a line of it; it
/// never takes more than a third of the space, and when the third allows,
/// it has its divider, title, spacer and at least one content line (for a
/// row count that the narrowing to `u16` does not wrap to zero).
pub proof fn lemma_ports_section_height(supported: bool, rows: usize, available: u16)
    requires
        ((if rows > 1 { rows as int } else { 1 }) % 65536) + 3 <= 65535,
    ensures
        spec_ports_section_height(supported, rows, available) == 0 <==> (!supported || available < 3),
        spec_ports_section_height(supported, rows, available) <= available / 3,
        supported && available / 3 >= 4 && (if rows > 1 { rows as int } else { 1 }) % 65536 != 0 ==> spec_ports_section_height(supported, rows, available) >= 4,
{
}

/// Law of the tunnel table as the rows read it: a tunnel just added for a
/// port is the one its row shows, and a port whose tunnel was removed shows none.
pub proof fn lemma_forward_local_after_update(
    m: Map<(Option<Seq<char>>, u16), (u16, bool)>,
    e: Option<Seq<char>>,
    p: u16,
    local: u16,
    manual: bool,
)
    ensures
        forward_local(m.insert((e, p), (local, manual)), e, p) == Some(local),
        forward_local(m.remove((e, p)), e, p) is None,
{
}

/// `→` and the local port for a forwarded row, nothing otherwise.
pub open spec fn forwarded_text(local: Option<u16>) -> Seq<char> {
    match local {
        Some(l) => "→"@ + decimal(l as nat),
        None => Seq::empty(),
    }
}

/// The label of the space with id `id`, or nothing when no space has it.
pub open spec fn space_label(ws: Seq<ShellWorkspaceView>, id: Seq<char>) -> Seq<char> {
    match find_workspace_by_id(ws, id) {
        Some(k) => ws[k].label,
        None => Seq::empty(),
    }
}

/// The text of a row: port, forward, then the process and its space, or `manual`.
pub open spec fn row_label(row: PortRow, ports: Seq<PortInfoView>, ws: Seq<ShellWorkspaceView>) -> Seq<char> {
    match row.pane {
        Some(i) => " :"@ + decimal(row.port as nat) + forwarded_text(row.local_port) + " "@ + ports[i as int].process
            + " · "@ + space_label(ws, ports[i as int].workspace_id),
        None => " :"@ + decimal(row.port as nat) + forwarded_text(row.local_port) + " manual"@,
    }
}

/// The line of the `k`-th row.
pub open spec fn row_rect(area: Rect, k: int) -> Rect {
    Rect { x: area.x, y: (area.y + 3 + k) as u16, width: area.width, height: 1 }
}

/// The stop (or close) button at the right end of a row.
pub open spec fn stop_rect(r: Rect) -> Rect {
    Rect { x: sat_sub(r.spec_right(), 2), y: r.y, width: min_u16(r.width, 2), height: 1 }
}

/// The part of a row left of its stop button, which opens the port.
pub open spec fn open_rect(r: Rect) -> Rect {
    Rect { x: r.x, y: r.y, width: (r.width - stop_rect(r).width) as u16, height: r.height }
}

/// What the stop button of a row does: stop the pane process, or close a manual tunnel.
pub open spec fn stop_target(row: PortRow, ports: Seq<PortInfoView>) -> PortTarget {
    match row.pane {
        Some(i) => PortTarget::Stop { port: ports[i as int].port, pid: ports[i as int].pid },
        None => PortTarget::Close(row.port),
    }
}

/// The number of rows that fit below the header.
pub open spec fn body_height(area: Rect) -> int {
    sat_sub(area.height, 3) as int
}

/// The number of rows drawn.
pub open spec fn visible_rows(area: Rect, n: int) -> int {
    if n < body_height(area) { n } else { body_height(area) }
}

/// The forward button at the right end of the title line.
pub open spec fn forward_button(area: Rect) -> Rect {
    let w = min_u16(10, area.width);
    Rect { x: sat_sub(area.spec_right(), w), y: (area.y + 1) as u16, width: w, height: 1 }
}

/// Manual forwarding tunnels a remote machine's port, and needs the mouse.
pub open spec fn shows_forward_button(endpoint: Option<Seq<char>>, mouse_capture: bool) -> bool {
    endpoint is Some && mouse_capture
}

/// The label of row `k`.
pub open spec fn label_op(area: Rect, rows: Seq<PortRow>, ports: Seq<PortInfoView>, ws: Seq<ShellWorkspaceView>, k: int) -> DrawOpView {
    let r = row_rect(area, k);
    DrawOpView::Text {
        x: r.x,
        y: r.y,
        width: (r.width - stop_rect(r).width) as u16,
        text: row_label(rows[k], ports, ws),
        tone: if rows[k].local_port is Some { Tone::Accent } else { Tone::Text },
    }
}

/// The stop button of row `k`.
pub open spec fn stop_op(area: Rect, k: int) -> DrawOpView {
    let stop = stop_rect(row_rect(area, k));
    DrawOpView::Text { x: stop.x, y: stop.y, width: stop.width, text: "✕"@, tone: Tone::Alert }
}

/// The drawing instructions of the first `n` rows: label, then stop button, per row.
pub open spec fn rows_ops(area: Rect, rows: Seq<PortRow>, ports: Seq<PortInfoView>, ws: Seq<ShellWorkspaceView>, n: int) -> Seq<DrawOpView>
    decreases n,
{
    if n <= 0 {
        Seq::empty()
    } else {
        rows_ops(area, rows, ports, ws, n - 1).push(label_op(area, rows, ports, ws, n - 1)).push(stop_op(area, n - 1))
    }
}

/// The click targets of the first `n` rows: stop button, then the rest of the line, per row.
pub open spec fn rows_hits(area: Rect, rows: Seq<PortRow>, ports: Seq<PortInfoView>, n: int) -> Seq<(Rect, PortTarget)>
    decreases n,
{
    if n <= 0 {
        Seq::empty()
    } else {
        let r = row_rect(area, n - 1);
        rows_hits(area, rows, ports, n - 1).push((stop_rect(r), stop_target(rows[n - 1], ports))).push(
            (open_rect(r), PortTarget::Open(rows[n - 1].port)),
        )
    }
}

/// Everything the ports section draws, in order.
pub open spec fn port_panel_ops(
    area: Rect,
    ws: Seq<ShellWorkspaceView>,
    mouse_capture: bool,
    rows: Seq<PortRow>,
    ports: Seq<PortInfoView>,
    endpoint: Option<Seq<char>>,
) -> Seq<DrawOpView> {
    if area.height < 2 {
        Seq::empty()
    } else {
        let b = forward_button(area);
        section_header(area, " ports"@)
            + (if shows_forward_button(endpoint, mouse_capture) {
                seq![DrawOpView::Text { x: b.x, y: b.y, width: b.width, text: "+ forward"@, tone: Tone::Accent }]
            } else {
                Seq::empty()
            })
            + (if rows.len() == 0 && body_height(area) > 0 {
                seq![DrawOpView::Text { x: area.x, y: (area.y + 3) as u16, width: area.width, text: " no ports in panes"@, tone: Tone::Note }]
            } else {
                Seq::empty()
            })
            + rows_ops(area, rows, ports, ws, visible_rows(area, rows.len() as int))
    }
}

/// Every click target of the ports section, in order.
pub open spec fn port_panel_hits(
    area: Rect,
    mouse_capture: bool,
    rows: Seq<PortRow>,
    ports: Seq<PortInfoView>,
    endpoint: Option<Seq<char>>,
) -> Seq<(Rect, PortTarget)> {
    if area.height < 2 {
        Seq::empty()
    } else {
        (if shows_forward_button(endpoint, mouse_capture) {
            seq![(forward_button(area), PortTarget::Forward)]
        } else {
            Seq::empty()
        }) + rows_hits(area, rows, ports, visible_rows(area, rows.len() as int))
    }
}

proof fn lemma_rows_ops_at(area: Rect, rows: Seq<PortRow>, ports: Seq<PortInfoView>, ws: Seq<ShellWorkspaceView>, n: int)
    requires
        n >= 0,
    ensures
        rows_ops(area, rows, ports, ws, n).len() == 2 * n,
        rows_hits(area, rows, ports, n).len() == 2 * n,
        forall|k: int| 0 <= k < n ==> #[trigger] rows_ops(area, rows, ports, ws, n)[2 * k] == label_op(area, rows, ports, ws, k)
            && rows_ops(area, rows, ports, ws, n)[2 * k + 1] == stop_op(area, k),
        forall|k: int| 0 <= k < n ==> #[trigger] rows_hits(area, rows, ports, n)[2 * k] == (stop_rect(row_rect(area, k)), stop_target(rows[k], ports))
            && rows_hits(area, rows, ports, n)[2 * k + 1] == (open_rect(row_rect(area, k)), PortTarget::Open(rows[k].port)),
    decreases n,
{
    if n > 0 {
        lemma_rows_ops_at(area, rows, ports, ws, n - 1);
        let prev_ops = rows_ops(area, rows, ports, ws, n - 1);
        let prev_hits = rows_hits(area, rows, ports, n - 1);
        assert forall|k: int| 0 <= k < n implies #[trigger] rows_ops(area, rows, ports, ws, n)[2 * k] == label_op(area, rows, ports, ws, k)
            && rows_ops(area, rows, ports, ws, n)[2 * k + 1] == stop_op(area, k) by {
            if k < n - 1 {
                assert(rows_ops(area, rows, ports, ws, n)[2 * k] == prev_ops[2 * k]);
                assert(rows_ops(area, rows, ports, ws, n)[2 * k + 1] == prev_ops[2 * k + 1]);
            }
        }
        assert forall|k: int| 0 <= k < n implies #[trigger] rows_hits(area, rows, ports, n)[2 * k] == (stop_rect(row_rect(area, k)), stop_target(rows[k], ports))
            && rows_hits(area, rows, ports, n)[2 * k + 1] == (open_rect(row_rect(area, k)), PortTarget::Open(rows[k].port)) by {
            if k < n - 1 {
                assert(rows_hits(area, rows, ports, n)[2 * k] == prev_hits[2 * k]);
                assert(rows_hits(area, rows, ports, n)[2 * k + 1] == prev_hits[2 * k + 1]);
            }
        }
    }
}

/// Law of the ports section: once the title fits, the empty-list note is
/// drawn exactly when there are no rows and there is room below the title;
/// otherwise the first rows that fit each get their label and a stop button
/// (2 instructions), a stop target (stopping the pane process, or closing a
/// manual tunnel) and an open target on the rest of the line, after the
/// divider, the title and, on SSH machines with the mouse, the forward button.
pub proof fn lemma_port_panel_rows(
    area: Rect,
    ws: Seq<ShellWorkspaceView>,
    mouse_capture: bool,
    rows: Seq<PortRow>,
    ports: Seq<PortInfoView>,
    endpoint: Option<Seq<char>>,
)
    requires
        area.height >= 2,
    ensures
        ({
            let ops = port_panel_ops(area, ws, mouse_capture, rows, ports, endpoint);
            let hits = port_panel_hits(area, mouse_capture, rows, ports, endpoint);
            let b: int = if endpoint is Some && mouse_capture { 1 } else { 0 };
            let room: int = if area.height >= 3 { area.height - 3 } else { 0 };
            let n: int = if rows.len() < room { rows.len() as int } else { room };
            if rows.len() == 0 && room > 0 {
                &&& ops.len() == 3 + b
                &&& ops[2 + b] == DrawOpView::Text {
                    x: area.x,
                    y: (area.y + 3) as u16,
                    width: area.width,
                    text: " no ports in panes"@,
                    tone: Tone::Note,
                }
                &&& hits.len() == b
            } else {
                &&& ops.len() == 2 + b + 2 * n
                &&& hits.len() == b + 2 * n
                &&& forall|k: int| 0 <= k < n ==> {
                    let y = (area.y + 3 + k) as u16;
                    let stop_w: u16 = if area.width < 2 { area.width } else { 2 };
                    &&& (#[trigger] ops[2 + b + 2 * k]) matches DrawOpView::Text { x, y: yy, .. } && x == area.x && yy == y
                    &&& ops[2 + b + 2 * k + 1] matches DrawOpView::Text { text, tone, .. } && text == "✕"@ && tone == Tone::Alert
                    &&& hits[b + 2 * k].1 == (match rows[k].pane {
                        Some(i) => PortTarget::Stop { port: ports[i as int].port, pid: ports[i as int].pid },
                        None => PortTarget::Close(rows[k].port),
                    })
                    &&& hits[b + 2 * k].0.y == y && hits[b + 2 * k].0.width == stop_w
                    &&& hits[b + 2 * k + 1] == (
                        Rect { x: area.x, y, width: (area.width - stop_w) as u16, height: 1 },
                        PortTarget::Open(rows[k].port),
                    )
                }
            }
        }),
{
    let b: int = if endpoint is Some && mouse_capture { 1 } else { 0 };
    let room: int = if area.height >= 3 { area.height - 3 } else { 0 };
    let n: int = if rows.len() < room { rows.len() as int } else { room };
    assert(body_height(area) == room);
    assert(visible_rows(area, rows.len() as int) == n);
    lemma_rows_ops_at(area, rows, ports, ws, n);
    let ops = port_panel_ops(area, ws, mouse_capture, rows, ports, endpoint);
    let hits = port_panel_hits(area, mouse_capture, rows, ports, endpoint);
    let ro = rows_ops(area, rows, ports, ws, n);
    let rh = rows_hits(area, rows, ports, n);
    if !(rows.len() == 0 && room > 0) {
        assert forall|k: int| 0 <= k < n implies {
            let y = (area.y + 3 + k) as u16;
            let stop_w: u16 = if area.width < 2 { area.width } else { 2 };
            &&& (#[trigger] ops[2 + b + 2 * k]) matches DrawOpView::Text { x, y: yy, .. } && x == area.x && yy == y
            &&& ops[2 + b + 2 * k + 1] matches DrawOpView::Text { text, tone, .. } && text == "✕"@ && tone == Tone::Alert
            &&& hits[b + 2 * k].1 == (match rows[k].pane {
                Some(i) => PortTarget::Stop { port: ports[i as int].port, pid: ports[i as int].pid },
                None => PortTarget::Close(rows[k].port),
            })
            &&& hits[b + 2 * k].0.y == y && hits[b + 2 * k].0.width == stop_w
            &&& hits[b + 2 * k + 1] == (
                Rect { x: area.x, y, width: (area.width - stop_w) as u16, height: 1 },
                PortTarget::Open(rows[k].port),
            )
        } by {
            assert(ops[2 + b + 2 * k] == ro[2 * k]);
            assert(ops[2 + b + 2 * k + 1] == ro[2 * k + 1]);
            assert(hits[b + 2 * k] == rh[2 * k]);
            assert(hits[b + 2 * k + 1] == rh[2 * k + 1]);
        }
    }
}

/// What the ports section draws and where it can be clicked.
#[derive(Debug)]
pub struct PortPanel {
    pub ops: Vec<DrawOp>,
    pub hits: Vec<(Rect, PortTarget)>,
}

fn row_label_text(row: &PortRow, ports: &Vec<PortInfo>, workspaces: &Vec<ShellWorkspace>) -> (s: String)
    requires
        row.pane matches Some(i) ==> i < ports.len(),
    ensures
        s@ == row_label(*row, views(ports@), workspace_views(workspaces@)),
{
    let mut s = String::from_str(" :");
    push_decimal(&mut s, row.port as u64);
    if let Some(local) = row.local_port {
        s.append("→");
        push_decimal(&mut s, local as u64);
    }
    let ghost head = " :"@ + decimal(row.port as nat) + forwarded_text(row.local_port);
    assert(s@ =~= head);
    match row.pane {
        Some(i) => {
            let pane = &ports[i];
            s.append(" ");
            s.append(pane.process.as_str());
            s.append(" · ");
            assert(s@ =~= head + " "@ + pane.process@ + " · "@);
            match workspace_with_id(workspaces, &pane.workspace_id) {
                Some(k) => {
                    assert(workspace_views(workspaces@)[k as int] == workspaces@[k as int]@);
                    assert(find_workspace_by_id(workspace_views(workspaces@), pane.workspace_id@) == Some(k as int));
                    s.append(workspaces[k].label.as_str());
                    assert(space_label(workspace_views(workspaces@), pane.workspace_id@) == workspaces@[k as int].label@);
                },
                None => {
                    assert(space_label(workspace_views(workspaces@), pane.workspace_id@) == Seq::<char>::empty());
                },
            }
            assert(s@ =~= head + " "@ + pane.process@ + " · "@ + space_label(workspace_views(workspaces@), pane.workspace_id@));
            assert(views(ports@)[i as int] == ports@[i as int]@);
            assert(s@ =~= row_label(*row, views(ports@), workspace_views(workspaces@)));
        },
        None => {
            s.append(" manual");
            assert(s@ =~= row_label(*row, views(ports@), workspace_views(workspaces@)));
        },
    }
    s
}

/// Lays out the ports section in `area`: divider, title, the forward button
/// on SSH machines, then one line per row that fits, each with a stop button
/// on its right. Rows past the section height are cut off.
pub fn render_port_panel(
    area: Rect,
    workspaces: &Vec<ShellWorkspace>,
    mouse_capture: bool,
    rows: &Vec<PortRow>,
    ports: &Vec<PortInfo>,
    endpoint_id: &ClientEndpointId,
) -> (panel: PortPanel)
    requires
        area.y + area.height <= 65535,
        forall|i: int| 0 <= i < rows.len() ==> ((#[trigger] rows@[i]).pane matches Some(p) ==> p < ports.len()),
    ensures
        op_views(panel.ops@) == port_panel_ops(area, workspace_views(workspaces@), mouse_capture, rows@, views(ports@), endpoint_id@),
        panel.hits@ == port_panel_hits(area, mouse_capture, rows@, views(ports@), endpoint_id@),
{
    let ghost ws = workspace_views(workspaces@);
    let ghost pv = views(ports@);
    let mut ops: Vec<DrawOp> = Vec::new();
    let mut hits: Vec<(Rect, PortTarget)> = Vec::new();
    if area.height < 2 {
        assert(op_views(ops@) =~= Seq::<DrawOpView>::empty());
        return PortPanel { ops, hits };
    }
    push_section_header(&mut ops, area, " ports");
    let is_ssh = match endpoint_id {
        ClientEndpointId::Ssh(_) => true,
        ClientEndpointId::Local => false,
    };
    if is_ssh && mouse_capture {
        let width = min(10, area.width);
        let button = Rect { x: saturating_sub(area.right(), width), y: area.y + 1, width, height: 1 };
        ops.push(DrawOp::Text { x: button.x, y: button.y, width: button.width, text: String::from_str("+ forward"), tone: Tone::Accent });
        hits.push((button, PortTarget::Forward));
    }
    let body = saturating_sub(area.height, 3);
    if rows.len() == 0 && body > 0 {
        ops.push(DrawOp::Text { x: area.x, y: area.y + 3, width: area.width, text: String::from_str(" no ports in panes"), tone: Tone::Note });
        proof {
            assert(op_views(ops@) =~= port_panel_ops(area, ws, mouse_capture, rows@, pv, endpoint_id@));
            assert(hits@ =~= port_panel_hits(area, mouse_capture, rows@, pv, endpoint_id@));
        }
        return PortPanel { ops, hits };
    }
    let n: usize = if rows.len() < body as usize { rows.len() } else { body as usize };
    let ghost ops0 = op_views(ops@);
    let ghost hits0 = hits@;
    let mut k: usize = 0;
    while k < n
        invariant
            ws == workspace_views(workspaces@),
            pv == views(ports@),
            area.y + area.height <= 65535,
            area.height >= 2,
            body == sat_sub(area.height, 3),
            n == visible_rows(area, rows.len() as int),
            forall|i: int| 0 <= i < rows.len() ==> ((#[trigger] rows@[i]).pane matches Some(p) ==> p < ports.len()),
            k <= n,
            op_views(ops@) == ops0 + rows_ops(area, rows@, pv, ws, k as int),
            hits@ == hits0 + rows_hits(area, rows@, pv, k as int),
        decreases n - k,
    {
        let row = &rows[k];
        let rect = Rect { x: area.x, y: area.y + 3 + k as u16, width: area.width, height: 1 };
        let stop = Rect { x: saturating_sub(rect.right(), 2), y: rect.y, width: min(rect.width, 2), height: 1 };
        let label = row_label_text(row, ports, workspaces);
        let ghost before_ops = op_views(ops@);
        let ghost before_hits = hits@;
        ops.push(DrawOp::Text {
            x: rect.x,
            y: rect.y,
            width: rect.width - stop.width,
            text: label,
            tone: if row.local_port.is_some() { Tone::Accent } else { Tone::Text },
        });
        ops.push(DrawOp::Text { x: stop.x, y: stop.y, width: stop.width, text: String::from_str("✕"), tone: Tone::Alert });
        let target = match row.pane {
            Some(i) => PortTarget::Stop { port: ports[i].port, pid: ports[i].pid },
            None => PortTarget::Close(row.port),
        };
        hits.push((stop, target));
        hits.push((Rect { x: rect.x, y: rect.y, width: rect.width - stop.width, height: rect.height }, PortTarget::Open(row.port)));
        proof {
            assert(rect == row_rect(area, k as int));
            assert(stop == stop_rect(rect));
            if let Some(i) = rows@[k as int].pane {
                assert(pv[i as int] == ports@[i as int]@);
            }
            assert(op_views(ops@) =~= before_ops.push(label_op(area, rows@, pv, ws, k as int)).push(stop_op(area, k as int)));
            assert(op_views(ops@) =~= ops0 + rows_ops(area, rows@, pv, ws, k + 1));
            assert(hits@ =~= hits0 + rows_hits(area, rows@, pv, k + 1));
        }
        k = k + 1;
    }
    proof {
        assert(op_views(ops@) =~= port_panel_ops(area, ws, mouse_capture, rows@, pv, endpoint_id@));
        assert(hits@ =~= port_panel_hits(area, mouse_capture, rows@, pv, endpoint_id@));
    }
    PortPanel { ops, hits }
}

} // verus!
