//! Key bindings: which action a keystroke triggers in the focused contexts.

use vstd::prelude::*;

use crate::key::Keystroke;

verus! {

/// A keystroke bound to an action, optionally only within a key context.
pub struct KeyBinding<A> {
    pub keystroke: Keystroke,
    pub context: Option<String>,
    pub action: A,
}

/// A binding as `(keystroke, context)`.
pub type BindingView = (Keystroke, Option<Seq<char>>);

/// Whether a binding applies to `keystroke` given the active `contexts`.
pub open spec fn binding_applies(b: BindingView, keystroke: Keystroke, contexts: Seq<Seq<char>>) -> bool {
    &&& b.0 == keystroke
    &&& match b.1 {
        Some(ctx) => contexts.contains(ctx),
        None => true,
    }
}

/// The index of the last of the first `n` bindings that applies.
pub open spec fn last_applying(
    bindings: Seq<BindingView>,
    keystroke: Keystroke,
    contexts: Seq<Seq<char>>,
    n: int,
) -> Option<int>
    decreases n,
{
    if n <= 0 {
        None
    } else if binding_applies(bindings[n - 1], keystroke, contexts) {
        Some(n - 1)
    } else {
        last_applying(bindings, keystroke, contexts, n - 1)
    }
}

/// Key bindings; later bindings take precedence.
pub struct Keymap<A> {
    bindings: Vec<KeyBinding<A>>,
}

impl<A> Keymap<A> {
    pub closed spec fn bindings_spec(&self) -> Seq<BindingView> {
        self.bindings@.map_values(
            |b: KeyBinding<A>| (
                b.keystroke,
                match b.context {
                    Some(c) => Some(c@),
                    None => None,
                },
            ),
        )
    }

    pub closed spec fn actions_spec(&self) -> Seq<A> {
        self.bindings@.map_values(|b: KeyBinding<A>| b.action)
    }

    pub fn new() -> (r: Self)
        ensures
            r.bindings_spec() == Seq::<BindingView>::empty(),
            r.actions_spec() == Seq::<A>::empty(),
    {
        let r = Keymap { bindings: Vec::new() };
        assert(r.bindings_spec() =~= Seq::<BindingView>::empty());
        assert(r.actions_spec() =~= Seq::<A>::empty());
        r
    }

    /// Binds `keystroke`, within `context` if given, to `action`.
    pub fn bind(&mut self, keystroke: Keystroke, context: Option<&str>, action: A)
        ensures
            final(self).bindings_spec() == old(self).bindings_spec().push(
                (
                    keystroke,
                    match context {
                        Some(c) => Some(c@),
                        None => None,
                    },
                ),
            ),
            final(self).actions_spec() == old(self).actions_spec().push(action),
    {
        let ctx = match context {
            Some(c) => Some(c.to_owned()),
            None => None,
        };
        let ghost b = (
            keystroke,
            match context {
                Some(c) => Some(c@),
                None => None::<Seq<char>>,
            },
        );
        self.bindings.push(KeyBinding { keystroke, context: ctx, action });
        assert(self.bindings_spec() =~= old(self).bindings_spec().push(b));
        assert(self.actions_spec() =~= old(self).actions_spec().push(action));
    }

    /// The action of the most recent binding that applies to `keystroke` in `contexts`.
    pub fn match_keystroke(&self, keystroke: &Keystroke, contexts: &[String]) -> (r: Option<&A>)
        ensures
            ({
                let found = last_applying(
                    self.bindings_spec(),
                    *keystroke,
                    contexts@.map_values(|c: String| c@),
                    self.bindings_spec().len() as int,
                );
                &&& r is None <==> found is None
                &&& r matches Some(a) ==> *a == self.actions_spec()[found->0]
            }),
    {
        let ghost bs = self.bindings_spec();
        let ghost ctxs = contexts@.map_values(|c: String| c@);
        let mut i = self.bindings.len();
        while i > 0
            invariant
                i <= self.bindings@.len(),
                bs == self.bindings_spec(),
                ctxs == contexts@.map_values(|c: String| c@),
                last_applying(bs, *keystroke, ctxs, bs.len() as int) == last_applying(
                    bs,
                    *keystroke,
                    ctxs,
                    i as int,
                ),
            decreases i,
        {
            let b = &self.bindings[i - 1];
            if b.keystroke == *keystroke {
                let applies = match &b.context {
                    None => true,
                    Some(ctx) => contains_string(contexts, ctx),
                };
                if applies {
                    return Some(&b.action);
                }
            }
            i -= 1;
        }
        None
    }

    pub fn clear(&mut self)
        ensures
            final(self).bindings_spec() == Seq::<BindingView>::empty(),
            final(self).actions_spec() == Seq::<A>::empty(),
    {
        self.bindings.clear();
        assert(self.bindings_spec() =~= Seq::<BindingView>::empty());
        assert(self.actions_spec() =~= Seq::<A>::empty());
    }
}

impl<A> Default for Keymap<A> {
    fn default() -> (r: Self)
        ensures
            r.bindings_spec() == Seq::<BindingView>::empty(),
    {
        Self::new()
    }
}

/// Whether `items` holds a string equal to `s`.
fn contains_string(items: &[String], s: &String) -> (r: bool)
    ensures
        r == items@.map_values(|c: String| c@).contains(s@),
{
    let ghost v = items@.map_values(|c: String| c@);
    let n = items.len();
    for i in 0..n
        invariant
            n == items@.len(),
            v == items@.map_values(|c: String| c@),
            forall|j: int| 0 <= j < i ==> v[j] != s@,
    {
        if items[i] == *s {
            assert(v[i as int] == s@);
            return true;
        }
    }
    false
}

} // verus!
