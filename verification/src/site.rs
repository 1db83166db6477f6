//! Text and selection computations the page renderer consumes: the
//! archive URL's date fragment, the page title, the favorites listing,
//! and the frozen first/last-index context.

use vstd::prelude::*;

use crate::date::Date;
use crate::date::date_text;
use crate::date::digit_char;
use crate::date::format_date;
use crate::list::PostList;

verus! {

/// Every hyphen replaced by a slash, all else kept.
pub open spec fn slashed(s: Seq<char>) -> Seq<char> {
    s.map_values(|c: char| if c == '-' { '/' } else { c })
}

/// A valid date as the path fragment of the external archive URL:
/// its `YYYY-MM-DD` text with each hyphen turned into a slash.
pub fn format_date_slashed(dt: &Date) -> (r: String)
    requires
        dt.valid(),
    ensures
        r@ == slashed(date_text(*dt)),
{
    let mut out = String::new();
    out.append(crate::date::digit_str((dt.year / 1000) as u8));
    out.append(crate::date::digit_str(((dt.year / 100) % 10) as u8));
    out.append(crate::date::digit_str(((dt.year / 10) % 10) as u8));
    out.append(crate::date::digit_str((dt.year % 10) as u8));
    out.append(slash_str());
    out.append(crate::date::digit_str(dt.month / 10));
    out.append(crate::date::digit_str(dt.month % 10));
    out.append(slash_str());
    out.append(crate::date::digit_str(dt.day / 10));
    out.append(crate::date::digit_str(dt.day % 10));
    proof {
        assert forall|k: int| 0 <= k < 10 implies digit_char(k) != '-' by {
        }
        assert(out@ =~= slashed(date_text(*dt)));
    }
    out
}

fn slash_str() -> (r: &'static str)
    ensures
        r@ =~= seq!['/'],
{
    proof {
        reveal_strlit("/");
    }
    "/"
}

/// The site header's base name.
pub open spec fn site_name() -> Seq<char> {
    "Garfildo Esperanta"@
}

/// The full page title: the site name alone for an empty page title,
/// else the site name, a separating hyphen, and the page's own title.
pub fn full_title(title: &str) -> (r: String)
    ensures
        title@.len() == 0 ==> r@ == site_name(),
        title@.len() > 0 ==> r@ == site_name() + " - "@ + title@,
{
    let mut out = String::from_str("Garfildo Esperanta");
    if !title.is_empty() {
        out.append(" - ");
        out.append(title);
    }
    out
}

/// Positions of the curator's favorites, ascending: exactly the posts
/// flagged `good`, in corpus order.
pub fn favorite_positions(list: &PostList) -> (r: Vec<usize>)
    ensures
        forall|k: int| 0 <= k < r@.len() ==> (#[trigger] r@[k]) < list@.len()
            && list@[r@[k] as int].props.good,
        forall|a: int, b: int|
            #![trigger r@[a], r@[b]]
            0 <= a < b < r@.len() ==> r@[a] < r@[b],
        forall|j: int|
            0 <= j < list@.len() && (#[trigger] list@[j]).props.good ==> exists|k: int|
                0 <= k < r@.len() && r@[k] == j,
{
    let n = list.len();
    let mut out: Vec<usize> = Vec::new();
    let mut i: usize = 0;
    while i < n
        invariant
            n == list@.len(),
            i <= n,
            forall|k: int| 0 <= k < out@.len() ==> (#[trigger] out@[k]) < i
                && list@[out@[k] as int].props.good,
            forall|a: int, b: int|
                #![trigger out@[a], out@[b]]
                0 <= a < b < out@.len() ==> out@[a] < out@[b],
            forall|j: int|
                0 <= j < i && (#[trigger] list@[j]).props.good ==> exists|k: int|
                    0 <= k < out@.len() && out@[k] == j,
        decreases n - i,
    {
        if list.get(i).props.good {
            let ghost prev = out@;
            out.push(i);
            proof {
                assert(out@[out@.len() - 1] == i);
                assert forall|j: int|
                    0 <= j < i + 1 && (#[trigger] list@[j]).props.good implies exists|k: int|
                    0 <= k < out@.len() && out@[k] == j by {
                    if j < i {
                        let k0 = choose|k0: int| 0 <= k0 < prev.len() && prev[k0] == j;
                        assert(out@[k0] == j);
                    } else {
                        assert(out@[out@.len() - 1] == j);
                    }
                }
            }
        } else {
            proof {
                assert forall|j: int|
                    0 <= j < i + 1 && (#[trigger] list@[j]).props.good implies exists|k: int|
                    0 <= k < out@.len() && out@[k] == j by {
                    assert(j != i);
                    let k0 = choose|k0: int| 0 <= k0 < out@.len() && out@[k0] == j;
                }
            }
        }
        i += 1;
    }
    out
}

/// The frozen context a renderer carries instead of process-wide
/// mutable globals: the corpus's first and last indices, taken once
/// from the loaded list.
pub struct SiteContext {
    pub first_index: Date,
    pub last_index: Date,
}

/// Builds the context from a loaded corpus.
pub fn site_context(list: &PostList) -> (r: SiteContext)
    requires
        list.wf(),
    ensures
        r.first_index == list@[0].index,
        r.last_index == list@[list@.len() - 1].index,
{
    SiteContext { first_index: list.first().index, last_index: list.last().index }
}

/// The first and last index in text form, for the random-strip script.
pub fn site_context_texts(ctx: &SiteContext) -> (r: (String, String))
    requires
        ctx.first_index.valid(),
        ctx.last_index.valid(),
    ensures
        r.0@ == date_text(ctx.first_index),
        r.1@ == date_text(ctx.last_index),
{
    (format_date(&ctx.first_index), format_date(&ctx.last_index))
}

} // verus!
