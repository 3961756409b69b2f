//! What goes onto the screen, and in which order.

use vstd::prelude::*;

use crate::kms::image;
use crate::kms::image::{color_from_u32, Color};
use crate::kms::raster::Rectangle16;
use crate::kms::state::{KmsBackend, KmsView, WindowStateView};
use crate::maps::keys_where;
use crate::wire;
use crate::wire::wrap_i16;

verus! {

/// Width and height of the software cursor.
pub const CURSOR_SIZE: u16 = 16;

/// One channel of the root's background, where no other was set.
pub const DEFAULT_GREY: u16 = 0x5050;

/// Blend the pixels of one window onto another, or onto the screen.
#[derive(Clone, Copy, Debug, PartialEq, Eq, Structural)]
pub struct CompositeStep {
    pub src: u32,
    /// The window to blend onto; `None` for the screen.
    pub dst: Option<u32>,
    pub x: i16,
    pub y: i16,
    pub width: u16,
    pub height: u16,
}

/// Everything that makes up a frame: the background, then windows in order, then
/// the cursor.
#[derive(Clone, Debug)]
pub struct FramePlan {
    pub background: Color,
    pub background_rect: Rectangle16,
    pub steps: Vec<CompositeStep>,
    pub cursor: Color,
    pub cursor_rect: Rectangle16,
}

pub open spec fn step_of(w: WindowStateView, id: u32, dst: Option<u32>) -> CompositeStep {
    CompositeStep { src: id, dst, x: w.x, y: w.y, width: w.width, height: w.height }
}

/// The steps for a window and everything below it: first its children onto it,
/// in their order, then itself onto `dst`. Windows that are not mapped are left
/// out with all that is below. At most `depth` levels are followed.
pub open spec fn window_steps(
    ws: Map<u32, WindowStateView>,
    id: u32,
    dst: Option<u32>,
    depth: nat,
) -> Seq<CompositeStep>
    decreases depth, 0nat,
{
    if depth == 0 || !ws.contains_key(id) || !ws[id].mapped {
        Seq::empty()
    } else {
        children_steps(
            ws,
            ws[id].children,
            Some(id),
            (depth - 1) as nat,
            ws[id].children.len(),
        ).push(step_of(ws[id], id, dst))
    }
}

/// The steps for the first `n` of `ids`, all onto `dst`.
pub open spec fn children_steps(
    ws: Map<u32, WindowStateView>,
    ids: Seq<u32>,
    dst: Option<u32>,
    depth: nat,
    n: nat,
) -> Seq<CompositeStep>
    decreases depth, n,
{
    if n == 0 {
        Seq::empty()
    } else {
        children_steps(ws, ids, dst, depth, (n - 1) as nat) + window_steps(
            ws,
            ids[n - 1],
            dst,
            depth,
        )
    }
}

impl KmsView {
    /// Whether a window is a direct child of the root container.
    pub open spec fn is_top_level(self, id: u32) -> bool {
        &&& self.windows.contains_key(id)
        &&& match self.windows[id].parent {
            Some(parent) => parent == self.window_id,
            None => true,
        }
    }

    /// Whether `steps` composes all top-level windows, in whatever order.
    pub open spec fn is_composition(self, steps: Seq<CompositeStep>) -> bool {
        exists|tops: Seq<u32>|
            {
                &&& #[trigger] tops.no_duplicates()
                &&& forall|id: u32| #[trigger] tops.contains(id) <==> self.is_top_level(id)
                &&& steps == children_steps(
                    self.windows,
                    tops,
                    None,
                    self.windows.dom().len(),
                    tops.len(),
                )
            }
    }

    /// Whether the pointer is on window `id`, which is mapped and top-level.
    pub open spec fn points_at(self, id: u32) -> bool {
        &&& self.is_top_level(id)
        &&& self.windows[id].mapped
        &&& self.windows[id].x <= self.cursor_x < self.windows[id].x + self.windows[id].width
        &&& self.windows[id].y <= self.cursor_y < self.windows[id].y + self.windows[id].height
    }

    /// The last of the first `n` of `ids` that the pointer is on. Windows are
    /// composed in order, so it is the one on top.
    pub open spec fn last_pointed_at(self, ids: Seq<u32>, n: int) -> Option<u32>
        decreases n,
    {
        if n <= 0 {
            None
        } else if self.points_at(ids[n - 1]) {
            Some(ids[n - 1])
        } else {
            self.last_pointed_at(ids, n - 1)
        }
    }

    pub open spec fn root_color(self) -> Color {
        match self.bg_pixel {
            Some(pixel) => image::pixel_color(pixel),
            None => Color {
                red: DEFAULT_GREY,
                green: DEFAULT_GREY,
                blue: DEFAULT_GREY,
                alpha: 0xffff,
            },
        }
    }

    pub open spec fn cursor_rect(self) -> Rectangle16 {
        Rectangle16 {
            x: wire::wrapped_i16(self.cursor_x as int) as i16,
            y: wire::wrapped_i16(self.cursor_y as int) as i16,
            width: CURSOR_SIZE,
            height: CURSOR_SIZE,
        }
    }
}

/// A table of windows is finite.
proof fn lemma_windows_finite(k: KmsBackend)
    ensures
        k@.windows.dom().finite(),
        k@.windows.dom().len() == k.windows@.dom().len(),
{
    broadcast use vstd::std_specs::hash::group_hash_axioms;

    assert(k@.windows.dom() =~= k.windows@.dom());
}

impl KmsBackend {
    fn is_top_level(&self, id: u32) -> (r: bool)
        ensures
            r == self@.is_top_level(id),
    {
        match self.window(id) {
            Some(w) => match w.parent {
                Some(parent) => parent == self.window_id,
                None => true,
            },
            None => false,
        }
    }

    /// The top-level windows, in the order in which they are walked: that of the
    /// table, which is no particular one.
    pub fn top_levels(&self) -> (tops: Vec<u32>)
        ensures
            tops@.no_duplicates(),
            forall|id: u32| #[trigger] tops@.contains(id) <==> self@.is_top_level(id),
    {
        let keep = |id: u32| -> (r: bool)
            ensures
                r == self@.is_top_level(id),
            {
                self.is_top_level(id)
            };
        keys_where(&self.windows, keep, Ghost(|id: u32| self@.is_top_level(id)))
    }

    /// Whether the pointer is on a window.
    fn points_at(&self, id: u32) -> (r: bool)
        ensures
            r == self@.points_at(id),
    {
        if !self.is_top_level(id) {
            return false;
        }
        let x: i32 = self.cursor_x as i32;
        let y: i32 = self.cursor_y as i32;
        match self.window(id) {
            Some(w) => w.mapped && x >= w.x as i32 && x < w.x as i32 + w.width as i32 && y
                >= w.y as i32 && y < w.y as i32 + w.height as i32,
            None => false,
        }
    }

    /// The window on top of those that the pointer is on, where `tops` are the
    /// top-level windows in the order in which they are composed.
    pub fn topmost_at_cursor(&self, tops: &Vec<u32>) -> (r: Option<u32>)
        ensures
            r == self@.last_pointed_at(tops@, tops@.len() as int),
    {
        let mut i: usize = tops.len();
        while i > 0
            invariant
                i <= tops@.len(),
                self@.last_pointed_at(tops@, tops@.len() as int) == self@.last_pointed_at(
                    tops@,
                    i as int,
                ),
            decreases i,
        {
            i -= 1;
            if self.points_at(tops[i]) {
                return Some(tops[i]);
            }
        }
        None
    }

    /// The mapped top-level window that the pointer is on, if there is one: of
    /// several the last in the order of [`KmsBackend::top_levels`].
    pub fn window_under_cursor(&self) -> (r: Option<u32>)
        ensures
            match r {
                Some(id) => self@.points_at(id),
                None => forall|id: u32| !#[trigger] self@.points_at(id),
            },
    {
        let tops = self.top_levels();
        let r = self.topmost_at_cursor(&tops);
        proof {
            lemma_last_pointed_at(self@, tops@, tops@.len() as int);
            assert forall|id: u32| r is None implies !#[trigger] self@.points_at(id) by {
                if self@.points_at(id) {
                    assert(tops@.contains(id));
                    let j = choose|j: int| 0 <= j < tops@.len() && tops@[j] == id;
                    assert(!self@.points_at(tops@[j]));
                }
            }
        }
        r
    }

    /// Appends the steps for a window and everything below it.
    fn composite_window_into(
        &self,
        id: u32,
        dst: Option<u32>,
        depth: usize,
        steps: &mut Vec<CompositeStep>,
    )
        ensures
            final(steps)@ == old(steps)@ + window_steps(self@.windows, id, dst, depth as nat),
        decreases depth,
    {
        let ghost ws = self@.windows;
        if depth == 0 {
            assert(steps@ =~= old(steps)@ + window_steps(ws, id, dst, depth as nat));
            return ;
        }
        match self.window(id) {
            Some(w) => {
                if !w.mapped {
                    assert(steps@ =~= old(steps)@ + window_steps(ws, id, dst, depth as nat));
                    return ;
                }
                let n: usize = w.children.len();
                let ghost kids = w.children@;
                assert(steps@ =~= old(steps)@ + children_steps(
                    ws,
                    kids,
                    Some(id),
                    (depth - 1) as nat,
                    0,
                ));
                for i in 0..n
                    invariant
                        depth > 0,
                        ws == self@.windows,
                        kids == w.children@,
                        n == kids.len(),
                        steps@ == old(steps)@ + children_steps(
                            ws,
                            kids,
                            Some(id),
                            (depth - 1) as nat,
                            i as nat,
                        ),
                {
                    let child: u32 = w.children[i];
                    self.composite_window_into(child, Some(id), depth - 1, steps);
                    assert(steps@ =~= old(steps)@ + children_steps(
                        ws,
                        kids,
                        Some(id),
                        (depth - 1) as nat,
                        (i + 1) as nat,
                    ));
                }
                steps.push(
                    CompositeStep {
                        src: id,
                        dst,
                        x: w.x,
                        y: w.y,
                        width: w.width,
                        height: w.height,
                    },
                );
            },
            None => {},
        }
        assert(steps@ =~= old(steps)@ + window_steps(ws, id, dst, depth as nat));
    }

    /// The steps for top-level windows in the given order, and everything below
    /// them.
    pub fn compose_windows(&self, tops: &Vec<u32>) -> (steps: Vec<CompositeStep>)
        ensures
            steps@ == children_steps(
                self@.windows,
                tops@,
                None,
                self@.windows.dom().len(),
                tops@.len(),
            ),
    {
        broadcast use vstd::std_specs::hash::group_hash_axioms;

        let depth: usize = self.windows.len();
        proof {
            lemma_windows_finite(*self);
        }
        let mut steps: Vec<CompositeStep> = Vec::new();
        let n: usize = tops.len();
        for i in 0..n
            invariant
                n == tops@.len(),
                steps@ == children_steps(
                    self@.windows,
                    tops@,
                    None,
                    depth as nat,
                    i as nat,
                ),
        {
            self.composite_window_into(tops[i], None, depth, &mut steps);
        }
        steps
    }

    /// Plans a frame: the root's background, all mapped windows, and the cursor.
    pub fn compose_frame(&self) -> (plan: FramePlan)
        ensures
            plan.background == self@.root_color(),
            plan.background_rect == (Rectangle16 {
                x: 0,
                y: 0,
                width: self@.fb_w,
                height: self@.fb_h,
            }),
            self@.is_composition(plan.steps@),
            plan.cursor == (Color {
                red: 0xffff,
                green: 0xffff,
                blue: 0xffff,
                alpha: 0xffff,
            }),
            plan.cursor_rect == self@.cursor_rect(),
    {
        let background = match self.bg_pixel {
            Some(pixel) => color_from_u32(pixel),
            None => Color {
                red: DEFAULT_GREY,
                green: DEFAULT_GREY,
                blue: DEFAULT_GREY,
                alpha: 0xffff,
            },
        };
        let tops = self.top_levels();
        let steps = self.compose_windows(&tops);
        assert(tops@.no_duplicates());
        FramePlan {
            background,
            background_rect: Rectangle16 { x: 0, y: 0, width: self.fb_w, height: self.fb_h },
            steps,
            cursor: Color { red: 0xffff, green: 0xffff, blue: 0xffff, alpha: 0xffff },
            cursor_rect: Rectangle16 {
                x: wrap_i16(self.cursor_x as i64),
                y: wrap_i16(self.cursor_y as i64),
                width: CURSOR_SIZE,
                height: CURSOR_SIZE,
            },
        }
    }

    pub fn fb_dimensions(&self) -> (r: (u16, u16))
        ensures
            r == (self@.fb_w, self@.fb_h),
    {
        (self.fb_w, self.fb_h)
    }
}

/// Whether children only go down in `rank`, so that no window is below itself.
pub open spec fn ranked(ws: Map<u32, WindowStateView>, rank: spec_fn(u32) -> nat) -> bool {
    forall|id: u32, c: u32|
        ws.contains_key(id) && #[trigger] ws[id].children.contains(c) ==> rank(c) < rank(id)
}

/// The windows of at most the rank of `id`.
pub open spec fn up_to(ws: Map<u32, WindowStateView>, rank: spec_fn(u32) -> nat, id: u32) -> Set<
    u32,
> {
    ws.dom().filter(|w: u32| rank(w) <= rank(id))
}

/// Where no window is below itself, following as many levels as there are
/// windows follows all: a deeper limit changes nothing.
pub proof fn lemma_composition_is_complete(
    ws: Map<u32, WindowStateView>,
    rank: spec_fn(u32) -> nat,
    id: u32,
    dst: Option<u32>,
    depth: nat,
    more: nat,
)
    requires
        ranked(ws, rank),
        ws.dom().finite(),
        ws.dom().len() <= depth <= more,
    ensures
        window_steps(ws, id, dst, depth) == window_steps(ws, id, dst, more),
{
    let s = up_to(ws, rank, id);
    assert(s.subset_of(ws.dom()));
    vstd::set_lib::lemma_len_subset(s, ws.dom());
    lemma_window_complete(ws, rank, id, dst, depth, more);
}

proof fn lemma_window_complete(
    ws: Map<u32, WindowStateView>,
    rank: spec_fn(u32) -> nat,
    id: u32,
    dst: Option<u32>,
    depth: nat,
    more: nat,
)
    requires
        ranked(ws, rank),
        ws.dom().finite(),
        up_to(ws, rank, id).len() <= depth <= more,
    ensures
        window_steps(ws, id, dst, depth) == window_steps(ws, id, dst, more),
    decreases depth, 0nat,
{
    if ws.contains_key(id) {
        let s = up_to(ws, rank, id);
        vstd::set_lib::lemma_len_subset(s, ws.dom());
        assert(s.contains(id));
        assert(s.len() > 0);
        if ws[id].mapped {
            let kids = ws[id].children;
            assert forall|i: int| 0 <= i < kids.len() implies up_to(
                ws,
                rank,
                #[trigger] kids[i],
            ).len() <= depth - 1 by {
                assert(kids.contains(kids[i]));
                let t = up_to(ws, rank, kids[i]);
                assert(t.subset_of(s.remove(id)));
                vstd::set_lib::lemma_len_subset(t, s.remove(id));
            }
            lemma_children_complete(
                ws,
                rank,
                kids,
                Some(id),
                (depth - 1) as nat,
                (more - 1) as nat,
                kids.len(),
            );
        }
    }
}

proof fn lemma_children_complete(
    ws: Map<u32, WindowStateView>,
    rank: spec_fn(u32) -> nat,
    ids: Seq<u32>,
    dst: Option<u32>,
    depth: nat,
    more: nat,
    n: nat,
)
    requires
        ranked(ws, rank),
        ws.dom().finite(),
        depth <= more,
        n <= ids.len(),
        forall|i: int| 0 <= i < ids.len() ==> up_to(ws, rank, #[trigger] ids[i]).len() <= depth,
    ensures
        children_steps(ws, ids, dst, depth, n) == children_steps(ws, ids, dst, more, n),
    decreases depth, n,
{
    if n > 0 {
        lemma_children_complete(ws, rank, ids, dst, depth, more, (n - 1) as nat);
        lemma_window_complete(ws, rank, ids[n - 1], dst, depth, more);
    }
}

/// Whether a step of `steps` blends window `id` onto the screen.
pub open spec fn reaches_screen(steps: Seq<CompositeStep>, id: u32) -> bool {
    exists|i: int| 0 <= i < steps.len() && #[trigger] steps[i] == (CompositeStep {
        dst: None,
        src: id,
        ..steps[i]
    })
}

/// Exactly the mapped top-level windows are blended onto the screen.
pub proof fn lemma_mapped_top_levels_reach_the_screen(
    k: KmsView,
    steps: Seq<CompositeStep>,
    id: u32,
)
    requires
        k.is_composition(steps),
        k.windows.dom().finite(),
    ensures
        reaches_screen(steps, id) <==> k.is_top_level(id) && k.windows[id].mapped,
{
    let depth = k.windows.dom().len();
    let tops = choose|tops: Seq<u32>|
        {
            &&& #[trigger] tops.no_duplicates()
            &&& forall|id: u32| #[trigger] tops.contains(id) <==> k.is_top_level(id)
            &&& steps == children_steps(k.windows, tops, None, depth, tops.len())
        };
    assert(k.windows.contains_key(id) ==> depth > 0) by {
        if k.windows.contains_key(id) {
            assert(k.windows.dom().contains(id));
        }
    }
    lemma_list_reaches_screen(k.windows, tops, depth, tops.len(), id);
    if reaches_screen(steps, id) {
        let j = choose|j: int| 0 <= j < tops.len() && tops[j] == id && depth > 0
            && k.windows.contains_key(id) && k.windows[id].mapped;
        assert(tops.contains(tops[j]));
    }
    if k.is_top_level(id) && k.windows[id].mapped {
        assert(tops.contains(id));
        let j = choose|j: int| 0 <= j < tops.len() && tops[j] == id;
        assert(tops[j] == id);
    }
}

proof fn lemma_list_reaches_screen(
    ws: Map<u32, WindowStateView>,
    ids: Seq<u32>,
    depth: nat,
    n: nat,
    id: u32,
)
    requires
        n <= ids.len(),
    ensures
        reaches_screen(children_steps(ws, ids, None, depth, n), id) <==> exists|j: int|
            0 <= j < n && #[trigger] ids[j] == id && depth > 0 && ws.contains_key(id)
                && ws[id].mapped,
    decreases n,
{
    if n > 0 {
        let before = children_steps(ws, ids, None, depth, (n - 1) as nat);
        let last = window_steps(ws, ids[n - 1], None, depth);
        let steps = children_steps(ws, ids, None, depth, n);
        lemma_list_reaches_screen(ws, ids, depth, (n - 1) as nat, id);
        lemma_window_reaches_screen(ws, ids[n - 1], depth, id);
        assert(steps == before + last);
        if reaches_screen(before, id) {
            let i = choose|i: int| 0 <= i < before.len() && #[trigger] before[i]
                == (CompositeStep { dst: None, src: id, ..before[i] });
            assert(steps[i] == before[i]);
        }
        if reaches_screen(last, id) {
            let i = choose|i: int| 0 <= i < last.len() && #[trigger] last[i] == (CompositeStep {
                dst: None,
                src: id,
                ..last[i]
            });
            assert(steps[before.len() + i] == last[i]);
        }
        if reaches_screen(steps, id) {
            let i = choose|i: int| 0 <= i < steps.len() && #[trigger] steps[i]
                == (CompositeStep { dst: None, src: id, ..steps[i] });
            if i < before.len() {
                assert(before[i] == steps[i]);
                assert(reaches_screen(before, id));
            } else {
                assert(last[i - before.len()] == steps[i]);
                assert(reaches_screen(last, id));
            }
        }
    }
}

proof fn lemma_window_reaches_screen(ws: Map<u32, WindowStateView>, top: u32, depth: nat, id: u32)
    ensures
        reaches_screen(window_steps(ws, top, None, depth), id) <==> top == id && depth > 0
            && ws.contains_key(id) && ws[id].mapped,
{
    let steps = window_steps(ws, top, None, depth);
    if depth > 0 && ws.contains_key(top) && ws[top].mapped {
        let kids = ws[top].children;
        let inner = children_steps(ws, kids, Some(top), (depth - 1) as nat, kids.len());
        lemma_inner_steps_stay_inside(ws, kids, top, (depth - 1) as nat, kids.len());
        assert(steps == inner.push(step_of(ws[top], top, None)));
        assert(steps[inner.len() as int].src == top);
        if reaches_screen(steps, id) {
            let i = choose|i: int| 0 <= i < steps.len() && #[trigger] steps[i]
                == (CompositeStep { dst: None, src: id, ..steps[i] });
            if i < inner.len() {
                assert(inner[i] == steps[i]);
            }
        }
    }
}

/// The last window that the pointer is on is one of them; without one the pointer
/// is on none.
proof fn lemma_last_pointed_at(k: KmsView, ids: Seq<u32>, n: int)
    requires
        0 <= n <= ids.len(),
    ensures
        match k.last_pointed_at(ids, n) {
            Some(id) => k.points_at(id),
            None => forall|j: int| 0 <= j < n ==> !k.points_at(#[trigger] ids[j]),
        },
    decreases n,
{
    if n > 0 {
        lemma_last_pointed_at(k, ids, n - 1);
    }
}

/// Whether `step` blends a window that the pointer is on onto the screen.
pub open spec fn shows_pointed_at(k: KmsView, step: CompositeStep) -> bool {
    step.dst is None && k.points_at(step.src)
}

/// The window on top is hit: with the top-level windows composed in the order
/// `tops`, the one that [`KmsBackend::topmost_at_cursor`] gives is blended onto
/// the screen, and after all others that the pointer is on.
pub proof fn lemma_topmost_is_composed_last(k: KmsView, tops: Seq<u32>, id: u32)
    requires
        k.windows.dom().finite(),
        tops.no_duplicates(),
        k.last_pointed_at(tops, tops.len() as int) == Some(id),
    ensures
        ({
            let steps = children_steps(
                k.windows,
                tops,
                None,
                k.windows.dom().len(),
                tops.len(),
            );
            &&& reaches_screen(steps, id)
            &&& forall|i: int, j: int|
                0 <= i < steps.len() && 0 <= j < steps.len() && #[trigger] shows_pointed_at(
                    k,
                    steps[i],
                ) && #[trigger] shows_pointed_at(k, steps[j]) && steps[i].src == id
                    && steps[j].src != id ==> j < i
        }),
{
    let depth = k.windows.dom().len();
    lemma_last_pointed_at(k, tops, tops.len() as int);
    assert(k.windows.dom().contains(id));
    lemma_last_is_listed(k, tops, tops.len() as int, id);
    lemma_list_reaches_screen(k.windows, tops, depth, tops.len(), id);
    lemma_last_pointed_at_comes_last(k, tops, depth, tops.len(), id);
}

proof fn lemma_last_is_listed(k: KmsView, ids: Seq<u32>, n: int, id: u32)
    requires
        0 <= n <= ids.len(),
        k.last_pointed_at(ids, n) == Some(id),
    ensures
        exists|j: int| 0 <= j < n && #[trigger] ids[j] == id,
    decreases n,
{
    if n > 0 && !k.points_at(ids[n - 1]) {
        lemma_last_is_listed(k, ids, n - 1, id);
    }
}

proof fn lemma_last_pointed_at_comes_last(
    k: KmsView,
    ids: Seq<u32>,
    depth: nat,
    n: nat,
    id: u32,
)
    requires
        n <= ids.len(),
        ids.no_duplicates(),
        k.last_pointed_at(ids, n as int) == Some(id),
    ensures
        ({
            let steps = children_steps(k.windows, ids, None, depth, n);
            forall|i: int, j: int|
                0 <= i < steps.len() && 0 <= j < steps.len() && #[trigger] shows_pointed_at(
                    k,
                    steps[i],
                ) && #[trigger] shows_pointed_at(k, steps[j]) && steps[i].src == id
                    && steps[j].src != id ==> j < i
        }),
    decreases n,
{
    let steps = children_steps(k.windows, ids, None, depth, n);
    if n > 0 {
        let m = (n - 1) as nat;
        let top = ids[n - 1];
        let before = children_steps(k.windows, ids, None, depth, m);
        let last = window_steps(k.windows, top, None, depth);
        assert(steps == before + last);
        lemma_last_pointed_at(k, ids, n as int);
        if top != id {
            lemma_last_pointed_at_comes_last(k, ids, depth, m, id);
        }
        lemma_list_reaches_screen(k.windows, ids, depth, m, id);
        assert forall|i: int, j: int|
            0 <= i < steps.len() && 0 <= j < steps.len() && #[trigger] shows_pointed_at(
                k,
                steps[i],
            ) && #[trigger] shows_pointed_at(k, steps[j]) && steps[i].src == id && steps[j].src
                != id implies j < i by {
            if j >= before.len() {
                assert(last[j - before.len()] == steps[j]);
                assert(reaches_screen(last, steps[j].src));
                lemma_window_reaches_screen(k.windows, top, depth, steps[j].src);
            } else {
                assert(before[j] == steps[j]);
            }
            if i < before.len() {
                assert(before[i] == steps[i]);
                assert(reaches_screen(before, id));
                if top != id {
                    assert(shows_pointed_at(k, before[i]) && shows_pointed_at(k, before[j]));
                }
            }
        }
    }
}

/// Steps onto a window and below it never touch the screen.
proof fn lemma_inner_steps_stay_inside(
    ws: Map<u32, WindowStateView>,
    ids: Seq<u32>,
    dst: u32,
    depth: nat,
    n: nat,
)
    ensures
        forall|i: int|
            0 <= i < children_steps(ws, ids, Some(dst), depth, n).len() ==> (
            #[trigger] children_steps(ws, ids, Some(dst), depth, n)[i]).dst is Some,
    decreases depth, n,
{
    if n > 0 {
        lemma_inner_steps_stay_inside(ws, ids, dst, depth, (n - 1) as nat);
        let id = ids[n - 1];
        let before = children_steps(ws, ids, Some(dst), depth, (n - 1) as nat);
        let last = window_steps(ws, id, Some(dst), depth);
        let steps = children_steps(ws, ids, Some(dst), depth, n);
        assert(steps == before + last);
        if depth > 0 && ws.contains_key(id) && ws[id].mapped {
            let kids = ws[id].children;
            lemma_inner_steps_stay_inside(ws, kids, id, (depth - 1) as nat, kids.len());
            let inner = children_steps(ws, kids, Some(id), (depth - 1) as nat, kids.len());
            assert(last == inner.push(step_of(ws[id], id, Some(dst))));
            assert forall|i: int| 0 <= i < last.len() implies (#[trigger] last[i]).dst is Some by {
                if i < inner.len() {
                    assert(last[i] == inner[i]);
                }
            }
        }
        assert forall|i: int| 0 <= i < steps.len() implies (#[trigger] steps[i]).dst is Some by {
            if i < before.len() {
                assert(steps[i] == before[i]);
            } else {
                assert(steps[i] == last[i - before.len()]);
            }
        }
    }
}

/// Whether each step blends onto `dst`, or onto a window that is blended on
/// itself by a later step.
pub open spec fn children_first(steps: Seq<CompositeStep>, dst: Option<u32>) -> bool {
    forall|i: int|
        0 <= i < steps.len() ==> (#[trigger] steps[i]).dst == dst || exists|j: int|
            i < j < steps.len() && steps[i].dst == Some((#[trigger] steps[j]).src)
}

/// Nothing is blended onto a window in vain: a later step blends that window on.
pub proof fn lemma_children_are_composed_first(
    ws: Map<u32, WindowStateView>,
    id: u32,
    dst: Option<u32>,
    depth: nat,
)
    ensures
        children_first(window_steps(ws, id, dst, depth), dst),
    decreases depth, 0nat,
{
    if depth > 0 && ws.contains_key(id) && ws[id].mapped {
        let kids = ws[id].children;
        let inner = children_steps(ws, kids, Some(id), (depth - 1) as nat, kids.len());
        lemma_lists_are_composed_first(ws, kids, Some(id), (depth - 1) as nat, kids.len());
        let steps = window_steps(ws, id, dst, depth);
        assert(steps == inner.push(step_of(ws[id], id, dst)));
        assert forall|i: int| 0 <= i < steps.len() implies (#[trigger] steps[i]).dst == dst
            || exists|j: int|
            i < j < steps.len() && steps[i].dst == Some((#[trigger] steps[j]).src) by {
            if i < inner.len() {
                assert(steps[i] == inner[i]);
                if inner[i].dst == Some(id) {
                    assert(steps[inner.len() as int].src == id);
                } else {
                    let j = choose|j: int|
                        i < j < inner.len() && inner[i].dst == Some((#[trigger] inner[j]).src);
                    assert(steps[j] == inner[j]);
                }
            }
        }
    }
}

proof fn lemma_lists_are_composed_first(
    ws: Map<u32, WindowStateView>,
    ids: Seq<u32>,
    dst: Option<u32>,
    depth: nat,
    n: nat,
)
    ensures
        children_first(children_steps(ws, ids, dst, depth, n), dst),
    decreases depth, n,
{
    if n > 0 {
        lemma_lists_are_composed_first(ws, ids, dst, depth, (n - 1) as nat);
        lemma_children_are_composed_first(ws, ids[n - 1], dst, depth);
        let a = children_steps(ws, ids, dst, depth, (n - 1) as nat);
        let b = window_steps(ws, ids[n - 1], dst, depth);
        let steps = children_steps(ws, ids, dst, depth, n);
        assert(steps == a + b);
        assert forall|i: int| 0 <= i < steps.len() implies (#[trigger] steps[i]).dst == dst
            || exists|j: int|
            i < j < steps.len() && steps[i].dst == Some((#[trigger] steps[j]).src) by {
            if i < a.len() {
                assert(steps[i] == a[i]);
                if a[i].dst != dst {
                    let j = choose|j: int|
                        i < j < a.len() && a[i].dst == Some((#[trigger] a[j]).src);
                    assert(steps[j] == a[j]);
                }
            } else {
                let k = i - a.len();
                assert(steps[i] == b[k]);
                if b[k].dst != dst {
                    let j = choose|j: int|
                        k < j < b.len() && b[k].dst == Some((#[trigger] b[j]).src);
                    assert(steps[a.len() + j] == b[j]);
                }
            }
        }
    }
}

} // verus!
