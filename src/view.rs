//! The reader's viewport: scrolling, following a peer, and when a reflow is due.
use vstd::prelude::*;

use crate::layout::LaidOutElement;
use crate::presence::ConnectedUser;

verus! {

/// Beyond this distance a follow step jumps straight to the target.
pub const SNAP_DISTANCE: u64 = 2000;

/// Beyond this distance a follow step moves at the fast speed.
pub const FAST_DISTANCE: u64 = 500;

/// Follow speed far from the target, in layout units per frame.
pub const FAST_STEP: u64 = 50;

/// Follow speed near the target, in layout units per frame.
pub const SLOW_STEP: u64 = 20;

/// Scroll distance of an arrow key.
pub const ARROW_STEP: u64 = 50;

/// Extra room below the last element that scrolling may reach.
pub const BOTTOM_MARGIN: u64 = 100;

/// The scroll offset after one follow step from `current` toward `target`.
pub open spec fn follow_step_of(current: u64, target: u64) -> int {
    let distance = if target >= current {
        target - current
    } else {
        current - target
    };
    if distance > SNAP_DISTANCE {
        target as int
    } else {
        let speed = if distance > FAST_DISTANCE {
            FAST_STEP
        } else {
            SLOW_STEP
        };
        let step = if speed < distance {
            speed as int
        } else {
            distance
        };
        if target >= current {
            current + step
        } else {
            current - step
        }
    }
}

/// One follow step: far targets are reached at once, nearer ones in steps
/// of the fast or slow speed, never past the target.
pub fn follow_step(current: u64, target: u64) -> (r: u64)
    ensures
        r == follow_step_of(current, target),
{
    let distance = if target >= current {
        target - current
    } else {
        current - target
    };
    if distance > SNAP_DISTANCE {
        target
    } else {
        let speed = if distance > FAST_DISTANCE {
            FAST_STEP
        } else {
            SLOW_STEP
        };
        let step = if speed < distance {
            speed
        } else {
            distance
        };
        if target >= current {
            current + step
        } else {
            current - step
        }
    }
}

/// Manual input that moves the viewport or ends following.
#[derive(Debug, Clone, Copy, PartialEq, Eq, Structural)]
pub enum ScrollInput {
    /// Wheel movement in tenths of a layout unit; positive scrolls up.
    Wheel { delta_tenths: i64 },
    ArrowDown,
    ArrowUp,
    /// Page key: scrolls down by most of a viewport.
    PageDown,
    Escape,
    StopFollowing,
    Disconnect,
}

/// Wheel movement inside this deadzone, in tenths, neither scrolls away from
/// a followed peer nor ends following.
pub const WHEEL_DEADZONE_TENTHS: u64 = 1;

/// Whether an input is a manual scroll or a stop request that ends following.
pub open spec fn ends_following(input: ScrollInput) -> bool {
    match input {
        ScrollInput::Wheel { delta_tenths } => delta_tenths > WHEEL_DEADZONE_TENTHS
            || delta_tenths < -(WHEEL_DEADZONE_TENTHS as int),
        _ => true,
    }
}

/// Whom a viewport follows after an input.
pub open spec fn following_after(following: Option<Seq<char>>, input: ScrollInput) -> Option<
    Seq<char>,
> {
    if ends_following(input) {
        None
    } else {
        following
    }
}

/// Clamps a scroll offset into `0..=limit`.
pub open spec fn clamp_scroll(s: int, limit: u64) -> int {
    if s < 0 {
        0
    } else if s > limit {
        limit as int
    } else {
        s
    }
}

/// The scroll offset after an input. A wheel moves by its whole units and is
/// clamped to the scroll limit; arrow and page keys move by fixed amounts,
/// never above the top.
pub open spec fn scrolled_by(scroll: u64, input: ScrollInput, viewport_height: u64, limit: u64) -> int {
    match input {
        ScrollInput::Wheel { delta_tenths } => {
            let units = if delta_tenths >= 0 {
                delta_tenths / 10
            } else {
                -((-delta_tenths) / 10)
            };
            clamp_scroll(scroll - units, limit)
        },
        ScrollInput::ArrowDown => scroll + ARROW_STEP,
        ScrollInput::ArrowUp => if scroll >= ARROW_STEP {
            scroll - ARROW_STEP
        } else {
            0
        },
        ScrollInput::PageDown => scroll + viewport_height * 8 / 10,
        _ => scroll as int,
    }
}

/// Bottom limit of scrolling: the total extent of the elements, each with
/// one paragraph spacing, plus a margin, less the viewport height.
pub open spec fn extent_of(l: Seq<LaidOutElement>, spacing: u64) -> int
    decreases l.len(),
{
    if l.len() == 0 {
        0
    } else {
        extent_of(l.drop_last(), spacing) + l.last().height + spacing
    }
}

/// The largest scroll offset, saturated into `u64`.
pub open spec fn scroll_limit_of(l: Seq<LaidOutElement>, spacing: u64, viewport_height: u64) -> int {
    let s = extent_of(l, spacing) + BOTTOM_MARGIN - viewport_height;
    if s < 0 {
        0
    } else if s > u64::MAX {
        u64::MAX as int
    } else {
        s
    }
}

/// Computes the largest scroll offset for a layout.
pub fn scroll_limit(l: &Vec<LaidOutElement>, spacing: u64, viewport_height: u64) -> (r: u64)
    ensures
        r == scroll_limit_of(l@, spacing, viewport_height),
{
    let mut total: u128 = 0;
    let mut capped = false;
    let mut i: usize = 0;
    while i < l.len()
        invariant
            0 <= i <= l.len(),
            !capped ==> total == extent_of(l@.subrange(0, i as int), spacing),
            capped ==> extent_of(l@.subrange(0, i as int), spacing) > u64::MAX + viewport_height,
            !capped ==> total <= u64::MAX + viewport_height,
            total <= u64::MAX * 4,
        decreases l.len() - i,
    {
        proof {
            assert(l@.subrange(0, i + 1 as int).drop_last() == l@.subrange(0, i as int));
            lemma_extent_grows(l@.subrange(0, i + 1 as int), spacing);
        }
        if !capped {
            total = total + l[i].height as u128 + spacing as u128;
            if total > u64::MAX as u128 + viewport_height as u128 {
                capped = true;
            }
        }
        i += 1;
    }
    assert(l@.subrange(0, l@.len() as int) == l@);
    if capped {
        return u64::MAX;
    }
    let with_margin: u128 = total + BOTTOM_MARGIN as u128;
    if with_margin <= viewport_height as u128 {
        0
    } else if with_margin - viewport_height as u128 > u64::MAX as u128 {
        u64::MAX
    } else {
        (with_margin - viewport_height as u128) as u64
    }
}

/// The extent never shrinks when an element is added.
proof fn lemma_extent_grows(l: Seq<LaidOutElement>, spacing: u64)
    requires
        l.len() > 0,
    ensures
        extent_of(l, spacing) >= extent_of(l.drop_last(), spacing),
{
}

/// The followed peer's starting element in the current layout, if the peer
/// and the element exist.
pub open spec fn follow_target_of(
    following: Option<Seq<char>>,
    peers: Seq<ConnectedUser>,
    l: Seq<LaidOutElement>,
) -> Option<int> {
    match following {
        None => None,
        Some(name) => if exists|i: int| #[trigger] first_peer_named(peers, name, i) {
            let i = choose|i: int| #[trigger] first_peer_named(peers, name, i);
            let e = peers[i].position.start_element;
            if e < l.len() {
                Some(l[e as int].y_position as int)
            } else {
                None
            }
        } else {
            None
        },
    }
}

/// `i` is the first peer with this name.
pub open spec fn first_peer_named(peers: Seq<ConnectedUser>, name: Seq<char>, i: int) -> bool {
    &&& 0 <= i < peers.len()
    &&& peers[i].name@ == name
    &&& forall|j: int| 0 <= j < i ==> (#[trigger] peers[j]).name@ != name
}

/// The view of an optional name.
pub open spec fn name_view(o: Option<String>) -> Option<Seq<char>> {
    match o {
        Some(s) => Some(s@),
        None => None,
    }
}

/// The starting position of the first peer named `name`, when its start
/// element lies within the layout.
pub fn follow_target(peers: &Vec<ConnectedUser>, l: &Vec<LaidOutElement>, name: &String) -> (r:
    Option<u64>)
    ensures
        match follow_target_of(Some(name@), peers@, l@) {
            Some(t) => r == Some(t as u64),
            None => r is None,
        },
{
    let mut i: usize = 0;
    while i < peers.len()
        invariant
            0 <= i <= peers.len(),
            forall|j: int| 0 <= j < i ==> (#[trigger] peers@[j]).name@ != name@,
        decreases peers.len() - i,
    {
        if peers[i].name == *name {
            proof {
                assert(first_peer_named(peers@, name@, i as int));
                let c = choose|c: int| #[trigger] first_peer_named(peers@, name@, c);
                if c < i {
                    assert(peers@[c].name@ != name@);
                } else if c > i {
                    assert(peers@[i as int].name@ != name@);
                }
            }
            let e = peers[i].position.start_element;
            if e < l.len() {
                return Some(l[e].y_position);
            }
            return None;
        }
        i += 1;
    }
    proof {
        assert forall|c: int| !#[trigger] first_peer_named(peers@, name@, c) by {
            if 0 <= c < peers@.len() {
                assert(peers@[c].name@ != name@);
            }
        }
    }
    None
}

/// The local viewport: scroll offset and the peer being followed, if any.
pub struct Viewport {
    pub scroll: u64,
    pub following: Option<String>,
}

impl Viewport {
    /// A viewport at the top, following nobody.
    pub fn new() -> (r: Viewport)
        ensures
            r.scroll == 0,
            r.following is None,
    {
        Viewport { scroll: 0, following: None }
    }

    /// Applies a manual input: it moves the scroll offset, and ends
    /// following unless it is a wheel movement inside the deadzone.
    pub fn apply_input(&mut self, input: ScrollInput, viewport_height: u64, limit: u64)
        ensures
            final(self).scroll == scrolled_by(old(self).scroll, input, viewport_height, limit)
                || (final(self).scroll == u64::MAX && scrolled_by(
                old(self).scroll,
                input,
                viewport_height,
                limit,
            ) > u64::MAX),
            ends_following(input) ==> final(self).following is None,
            !ends_following(input) ==> final(self).following == old(self).following,
            name_view(final(self).following) == following_after(
                name_view(old(self).following),
                input,
            ),
    {
        match input {
            ScrollInput::Wheel { delta_tenths } => {
                if delta_tenths > WHEEL_DEADZONE_TENTHS as i64 || delta_tenths < -(WHEEL_DEADZONE_TENTHS as i64) {
                    self.following = None;
                }
                let s = self.scroll as i128;
                let units: i128 = if delta_tenths >= 0 {
                    delta_tenths as i128 / 10
                } else {
                    -((-(delta_tenths as i128)) / 10)
                };
                let moved = s - units;
                self.scroll = if moved < 0 {
                    0
                } else if moved > limit as i128 {
                    limit
                } else {
                    moved as u64
                };
            },
            ScrollInput::ArrowDown => {
                self.scroll = self.scroll.saturating_add(ARROW_STEP);
                self.following = None;
            },
            ScrollInput::ArrowUp => {
                self.scroll = if self.scroll >= ARROW_STEP {
                    self.scroll - ARROW_STEP
                } else {
                    0
                };
                self.following = None;
            },
            ScrollInput::PageDown => {
                let page = (viewport_height as u128 * 8 / 10) as u64;
                self.scroll = self.scroll.saturating_add(page);
                self.following = None;
            },
            _ => {
                self.following = None;
            },
        }
    }

    /// One frame of follow mode: moves one step toward the followed peer's
    /// starting element; does nothing when following nobody or when the peer
    /// or its element is unknown.
    pub fn follow_tick(&mut self, peers: &Vec<ConnectedUser>, l: &Vec<LaidOutElement>)
        ensures
            final(self).following == old(self).following,
            match follow_target_of(name_view(old(self).following), peers@, l@) {
                Some(t) => final(self).scroll == follow_step_of(old(self).scroll, t as u64),
                None => final(self).scroll == old(self).scroll,
            },
    {
        let target = match &self.following {
            Some(name) => follow_target(peers, l, name),
            None => None,
        };
        if let Some(t) = target {
            self.scroll = follow_step(self.scroll, t);
        }
    }

    /// Jumps to the start of element `index`, ending follow mode; an index
    /// beyond the layout changes nothing.
    pub fn jump_to(&mut self, l: &Vec<LaidOutElement>, index: usize)
        ensures
            index < l.len() ==> final(self).scroll == l@[index as int].y_position
                && final(self).following is None,
            index >= l.len() ==> final(self).scroll == old(self).scroll && final(self).following
                == old(self).following,
    {
        if index < l.len() {
            self.scroll = l[index].y_position;
            self.following = None;
        }
    }

    /// Chooses whom to follow from the peer list: choosing oneself or the
    /// peer already followed ends following; choosing another peer follows it.
    pub fn toggle_follow(&mut self, peer: &String, own_name: &String)
        ensures
            final(self).scroll == old(self).scroll,
            (peer@ == own_name@ || name_view(old(self).following) == Some(peer@))
                ==> final(self).following is None,
            !(peer@ == own_name@ || name_view(old(self).following) == Some(peer@))
                ==> name_view(final(self).following) == Some(peer@),
    {
        let already = match &self.following {
            Some(f) => *f == *peer,
            None => false,
        };
        if *peer == *own_name || already {
            self.following = None;
        } else {
            self.following = Some(peer.clone());
        }
    }
}

/// After a manual scroll input or a stop request, follow mode has no
/// target: later frames take no follow step, whoever was followed before and
/// whatever the peers and the layout.
pub proof fn lemma_input_stops_following(
    following: Option<Seq<char>>,
    input: ScrollInput,
    peers: Seq<ConnectedUser>,
    l: Seq<LaidOutElement>,
)
    requires
        ends_following(input),
    ensures
        following_after(following, input) is None,
        follow_target_of(following_after(following, input), peers, l) is None,
{
}

/// A font choice for the reading text.
#[derive(Debug, Clone, Copy, PartialEq, Eq, Structural)]
pub enum FontChoice {
    Japanese,
    Chinese,
    English,
}

/// The parameters that a layout depends on, besides the document.
#[derive(Debug, Clone, Copy, PartialEq, Eq, Structural)]
pub struct LayoutParams {
    pub content_width: u64,
    pub font: FontChoice,
    pub font_size: u64,
    pub paragraph_spacing: u64,
}

/// A reflow is due when there is no layout yet, when the font, its size or
/// the spacing changed, or when the width moved by more than one unit.
pub open spec fn reflow_due(last: Option<LayoutParams>, current: LayoutParams) -> bool {
    match last {
        None => true,
        Some(p) => p.font != current.font || p.font_size != current.font_size
            || p.paragraph_spacing != current.paragraph_spacing || p.content_width
            > current.content_width + 1 || current.content_width > p.content_width + 1,
    }
}

/// Whether the layout made with `last` must be recomputed for `current`.
pub fn needs_reflow(last: Option<LayoutParams>, current: LayoutParams) -> (r: bool)
    ensures
        r == reflow_due(last, current),
{
    match last {
        None => true,
        Some(p) => p.font != current.font || p.font_size != current.font_size
            || p.paragraph_spacing != current.paragraph_spacing || (p.content_width
            > current.content_width && p.content_width - current.content_width > 1) || (
        current.content_width > p.content_width && current.content_width - p.content_width > 1),
    }
}

/// The span of a peer's range within the current layout: `None` when its
/// start lies beyond the layout, its end clamped to the last element.
pub fn clamp_peer_range(start: usize, end: usize, layout_len: usize) -> (r: Option<(usize, usize)>)
    ensures
        start >= layout_len ==> r is None,
        start < layout_len ==> r == Some(
            (start, if end < layout_len {
                end
            } else {
                (layout_len - 1) as usize
            }),
        ),
{
    if start >= layout_len {
        None
    } else if end < layout_len {
        Some((start, end))
    } else {
        Some((start, layout_len - 1))
    }
}

} // verus!
