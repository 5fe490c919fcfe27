//! Rendering a list of names as an English enumeration: "a", "a and b",
//! "a, b, and c".

use vstd::prelude::*;

verus! {

use vstd::string::StringExecFns;

/// The separator written before item `j` of `len` items: " and " between
/// exactly two, an Oxford ", and " before the last of three or more, and
/// ", " elsewhere.
pub open spec fn spec_separator(len: int, j: int) -> Seq<char> {
    if j == len - 1 {
        if j == 1 {
            " and "@
        } else {
            ", and "@
        }
    } else {
        ", "@
    }
}

/// The first `k` items rendered: the first bare, each further one behind
/// its separator.
pub open spec fn spec_format_prefix(items: Seq<Seq<char>>, k: int) -> Seq<char>
    decreases k,
{
    if k <= 0 {
        Seq::<char>::empty()
    } else if k == 1 {
        items[0]
    } else {
        spec_format_prefix(items, k - 1) + spec_separator(items.len() as int, k - 1) + items[k - 1]
    }
}

/// The whole list rendered as an English enumeration.
pub open spec fn spec_format_list(items: Seq<Seq<char>>) -> Seq<char> {
    spec_format_prefix(items, items.len() as int)
}

/// Renders names as an English enumeration: nothing for an empty list,
/// "a" alone, "a and b" for a pair, and "a, b, and c" beyond.
pub fn format_list(items: &Vec<String>) -> (r: String)
    ensures
        r@ == spec_format_list(items.deep_view()),
{
    let ghost model = items.deep_view();
    let mut out = String::new();
    if items.len() == 0 {
        return out;
    }
    out.append(items[0].as_str());
    let mut k: usize = 1;
    while k < items.len()
        invariant
            1 <= k <= items.len(),
            model == items.deep_view(),
            out@ == spec_format_prefix(model, k as int),
        decreases items.len() - k,
    {
        let last = k == items.len() - 1;
        if last && k == 1 {
            out.append(" and ");
        } else if last {
            out.append(", and ");
        } else {
            out.append(", ");
        }
        proof {
            assert(out@ == spec_format_prefix(model, k as int) + spec_separator(
                model.len() as int,
                k as int,
            ));
        }
        out.append(items[k].as_str());
        proof {
            assert(out@ =~= spec_format_prefix(model, k as int + 1));
        }
        k += 1;
    }
    out
}

} // verus!
