use vstd::prelude::*;

verus! {

/// The state of one inline text run that outlives a frame: the rendered
/// text and the link under the pointer, with the fragment that owns the
/// hover (one wrapped run paints as several fragments).
#[derive(Debug)]
pub struct InlineState {
    /// The link under the pointer and the fragment that reported it.
    pub hovered_link: Option<(usize, usize)>,
    /// The text actually rendered, which a selection reads.
    pub text: String,
}

impl Default for InlineState {
    fn default() -> (state: Self)
        ensures
            state.hovered_link is None,
            state.text@ == Seq::<char>::empty(),
    {
        InlineState { hovered_link: None, text: String::new() }
    }
}

/// The hover after fragment `owner` reports link `updated` (or none), and
/// whether it changed: a fragment cannot clear a hover that another
/// fragment owns.
pub open spec fn hover_step(hovered: Option<(usize, usize)>, updated: Option<usize>, owner: usize) -> (
    Option<(usize, usize)>,
    bool,
) {
    if updated is None && (hovered matches Some(h) && h.1 != owner) {
        (hovered, false)
    } else {
        let next = match updated {
            Some(link) => Some((link, owner)),
            None => None,
        };
        if hovered == next {
            (hovered, false)
        } else {
            (next, true)
        }
    }
}

impl InlineState {
    /// Saves the text actually rendered, for a selection to read.
    pub fn set_text(&mut self, text: String)
        ensures
            final(self).text@ == text@,
            final(self).hovered_link == old(self).hovered_link,
    {
        self.text = text;
    }

    /// Records that fragment `owner` has link `updated` under the pointer
    /// (or none); says whether the hover changed (see [`hover_step`]).
    pub fn update_hover(&mut self, updated: Option<usize>, owner: usize) -> (changed: bool)
        ensures
            final(self).hovered_link == hover_step(old(self).hovered_link, updated, owner).0,
            changed == hover_step(old(self).hovered_link, updated, owner).1,
            final(self).text@ == old(self).text@,
    {
        let foreign = match self.hovered_link {
            Some((_, current_owner)) => current_owner != owner,
            None => false,
        };
        if updated.is_none() && foreign {
            return false;
        }
        let next = match updated {
            Some(link) => Some((link, owner)),
            None => None,
        };
        let same = match (self.hovered_link, next) {
            (Some(a), Some(b)) => a.0 == b.0 && a.1 == b.1,
            (None, None) => true,
            _ => false,
        };
        if same {
            return false;
        }
        self.hovered_link = next;
        true
    }
}

/// A hover belongs to the fragment that set it: no other fragment clears
/// it, and the owner clearing it leaves no hover.
pub proof fn lemma_hover_owned_by_its_fragment(link: usize, owner: usize, other: usize)
    requires
        owner != other,
    ensures
        hover_step(Some((link, owner)), None, other) == (Some((link, owner)), false),
        hover_step(Some((link, owner)), None, owner) == (None::<(usize, usize)>, true),
{
}

} // verus!
