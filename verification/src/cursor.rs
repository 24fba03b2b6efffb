//! The mouse cursor to show: the nearest cursor style set on the hovered node or its
//! ancestors.

use vstd::prelude::*;

use crate::dispatch::{chain_at, chain_ends, parent_in, DispatchNode, DispatchTree};
use crate::node_id::NodeId;
use crate::style::CursorStyle;

verus! {

/// The cursor style registered on `n`, if any.
pub open spec fn node_cursor<H>(m: Map<NodeId, DispatchNode<H>>, n: NodeId) -> Option<CursorStyle> {
    if m.contains_key(n) {
        m[n].data.cursor
    } else {
        None
    }
}

/// The first cursor style among the chain nodes at positions `i .. i + fuel`.
pub open spec fn chain_cursor<H>(
    m: Map<NodeId, DispatchNode<H>>,
    start: NodeId,
    i: nat,
    fuel: nat,
) -> Option<CursorStyle>
    decreases fuel,
{
    if fuel == 0 {
        None
    } else {
        match chain_at(m, start, i) {
            None => None,
            Some(n) => match node_cursor(m, n) {
                Some(c) => Some(c),
                None => chain_cursor(m, start, i + 1, (fuel - 1) as nat),
            },
        }
    }
}

/// The cursor style `target` shows: the one set on it or on its nearest ancestor that has
/// one.
pub open spec fn inherited_cursor<H>(m: Map<NodeId, DispatchNode<H>>, target: NodeId) -> Option<
    CursorStyle,
> {
    chain_cursor(m, target, 0, choose|k: nat| #[trigger] chain_at(m, target, k) is None)
}

/// Showing `wanted` (the default cursor when `None`) while `current` is shown: the cursor
/// shown afterwards, and the change to report.
pub open spec fn cursor_update(current: CursorStyle, wanted: Option<CursorStyle>) -> (
    CursorStyle,
    Option<CursorStyle>,
) {
    let target = match wanted {
        Some(c) => c,
        None => CursorStyle::Default,
    };
    if target != current {
        (target, Some(target))
    } else {
        (current, None)
    }
}

/// Past the end of the chain, more fuel finds nothing more.
proof fn lemma_chain_cursor_extend<H>(m: Map<NodeId, DispatchNode<H>>, start: NodeId, i: nat, f: nat)
    requires
        chain_at(m, start, i + f) is None,
    ensures
        chain_cursor(m, start, i, f) == chain_cursor(m, start, i, f + 1),
    decreases f,
{
    if f > 0 {
        if chain_at(m, start, i) is Some {
            lemma_chain_cursor_extend(m, start, i + 1, (f - 1) as nat);
        }
    }
}

proof fn lemma_chain_cursor_stable<H>(
    m: Map<NodeId, DispatchNode<H>>,
    start: NodeId,
    i: nat,
    f: nat,
    g: nat,
)
    requires
        chain_at(m, start, i + f) is None,
        f <= g,
    ensures
        chain_cursor(m, start, i, f) == chain_cursor(m, start, i, g),
    decreases g - f,
{
    if f < g {
        lemma_chain_cursor_extend(m, start, i, f);
        crate::dispatch::lemma_chain_stays_ended(m, start, i + f, i + f + 1);
        lemma_chain_cursor_stable(m, start, i, f + 1, g);
    }
}

/// Tracks the cursor currently shown.
pub struct CursorManager {
    current: CursorStyle,
}

impl CursorManager {
    pub closed spec fn shown(&self) -> CursorStyle {
        self.current
    }

    pub fn new() -> (r: Self)
        ensures
            r.shown() == CursorStyle::Default,
    {
        CursorManager { current: CursorStyle::Default }
    }

    pub fn current(&self) -> (r: CursorStyle)
        ensures
            r == self.shown(),
    {
        self.current
    }

    /// Shows the cursor inherited by `target`, reporting it when it differs from the one
    /// shown.
    pub fn resolve<H>(&mut self, target: NodeId, dispatch: &DispatchTree<H>) -> (r: Option<
        CursorStyle,
    >)
        requires
            chain_ends(dispatch.map(), target),
        ensures
            (final(self).shown(), r) == cursor_update(
                old(self).shown(),
                inherited_cursor(dispatch.map(), target),
            ),
    {
        let ghost m = dispatch.map();
        let ghost k_end = choose|k: nat| #[trigger] chain_at(m, target, k) is None;
        let ghost mut i: nat = 0;
        let mut node = Some(target);
        assert(chain_at(m, target, 0) == Some(target));
        loop
            invariant
                m == dispatch.map(),
                chain_at(m, target, k_end) is None,
                node == chain_at(m, target, i),
                i <= k_end,
                inherited_cursor(m, target) == chain_cursor(m, target, i, (k_end - i) as nat),
                self.current == old(self).current,
            ensures
                inherited_cursor(m, target) is None,
                self.current == old(self).current,
            decreases k_end - i,
        {
            match node {
                None => {
                    assert(chain_cursor(m, target, i, (k_end - i) as nat) is None);
                    break;
                },
                Some(id) => {
                    proof {
                        if i == k_end {
                            assert(false);
                        }
                    }
                    if let Some(data) = dispatch.get(id) {
                        if let Some(cursor) = data.cursor {
                            if cursor != self.current {
                                self.current = cursor;
                                return Some(cursor);
                            }
                            return None;
                        }
                    }
                    node = dispatch.parent(id);
                    proof {
                        i = i + 1;
                    }
                },
            }
        }
        if self.current != CursorStyle::Default {
            self.current = CursorStyle::Default;
            return Some(CursorStyle::Default);
        }
        None
    }

    /// Goes back to the default cursor, reporting it when another one was shown.
    pub fn reset(&mut self) -> (r: Option<CursorStyle>)
        ensures
            (final(self).shown(), r) == cursor_update(old(self).shown(), None),
    {
        if self.current != CursorStyle::Default {
            self.current = CursorStyle::Default;
            return Some(CursorStyle::Default);
        }
        None
    }
}

impl Default for CursorManager {
    fn default() -> (r: Self)
        ensures
            r.shown() == CursorStyle::Default,
    {
        Self::new()
    }
}

/// Showing the same cursor twice reports a change at most once.
pub proof fn lemma_cursor_update_idempotent(current: CursorStyle, wanted: Option<CursorStyle>)
    ensures
        cursor_update(cursor_update(current, wanted).0, wanted).1 is None,
        cursor_update(cursor_update(current, wanted).0, wanted).0 == cursor_update(
            current,
            wanted,
        ).0,
{
}

/// The cursor shown after an update is the wanted one (the default when none is
/// wanted), and a change is reported exactly when it differs from the one shown before.
pub proof fn lemma_cursor_update_shows_wanted(current: CursorStyle, wanted: Option<CursorStyle>)
    ensures
        cursor_update(current, wanted).0 == (match wanted {
            Some(c) => c,
            None => CursorStyle::Default,
        }),
        cursor_update(current, wanted).1 is Some <==> cursor_update(current, wanted).0 != current,
        cursor_update(current, wanted).1 matches Some(c) ==> c == cursor_update(current, wanted).0,
{
}

} // verus!
