//! Rendering model pieces into target-language text.
//!
//! Every model type can print itself as a fragment of target-language
//! source. The text each piece produces is pinned down by a spec-level
//! sequence of characters, so callers can reason about the exact output.

use vstd::prelude::*;
use vstd::string::StringExecFns;

verus! {

/// The rendered pieces joined in order, separated by `delim`.
pub open spec fn spec_join(parts: Seq<Seq<char>>, delim: Seq<char>) -> Seq<char>
    decreases parts.len(),
{
    if parts.len() == 0 {
        Seq::empty()
    } else if parts.len() == 1 {
        parts[0]
    } else {
        spec_join(parts.drop_last(), delim) + delim + parts.last()
    }
}

/// A model piece that renders itself into target-language text.
pub trait Render {
    /// The exact text this value renders to.
    spec fn spec_render(&self) -> Seq<char>;

    /// Render this value into a freshly allocated string.
    fn render(&self) -> (r: String)
        ensures
            r@ == self.spec_render(),
    ;
}

/// Render `items` in order, separated by `delimiter`.
pub fn render_delimited<T: Render>(items: &Vec<T>, delimiter: &str) -> (r: String)
    ensures
        r@ == spec_join(items@.map_values(|t: T| t.spec_render()), delimiter@),
{
    let ghost parts = items@.map_values(|t: T| t.spec_render());
    let mut out = String::new();
    let mut i: usize = 0;
    while i < items.len()
        invariant
            0 <= i <= items@.len(),
            parts == items@.map_values(|t: T| t.spec_render()),
            parts.len() == items@.len(),
            out@ == spec_join(parts.subrange(0, i as int), delimiter@),
        decreases items@.len() - i,
    {
        if i > 0 {
            out.append(delimiter);
        }
        let piece = items[i].render();
        out.append(piece.as_str());
        proof {
            let sub = parts.subrange(0, i + 1);
            assert(sub.drop_last() =~= parts.subrange(0, i as int));
            assert(sub.last() == parts[i as int]);
            if i == 0 {
                assert(Seq::<char>::empty() + parts[0] =~= parts[0]);
                assert(out@ == spec_join(sub, delimiter@));
            }
        }
        i += 1;
    }
    proof {
        assert(parts.subrange(0, parts.len() as int) =~= parts);
    }
    out
}

} // verus!
