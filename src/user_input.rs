//! Logic behind the interactive picker: moving the selection and writing
//! lists for a reader.
use vstd::prelude::*;

use itertools::Itertools;

verus! {

/// The entry selected after moving down: the next one, wrapping round to the
/// first; the first when nothing was selected.
pub fn select_next(selected: Option<usize>, len: usize) -> (r: usize)
    requires
        len > 0,
        selected matches Some(i) ==> i < len,
    ensures
        r < len,
        r == match selected {
            Some(i) => (i + 1) % (len as int),
            None => 0,
        },
{
    match selected {
        Some(i) => if i + 1 == len {
            assert((len as int) % (len as int) == 0) by (nonlinear_arith)
                requires
                    len > 0,
            ;
            0
        } else {
            assert((i + 1) % (len as int) == i + 1) by (nonlinear_arith)
                requires
                    i + 1 < len,
            ;
            i + 1
        },
        None => 0,
    }
}

/// The entry selected after moving up: the previous one, wrapping round to
/// the last; the first when nothing was selected.
pub fn select_previous(selected: Option<usize>, len: usize) -> (r: usize)
    requires
        len > 0,
        selected matches Some(i) ==> i < len,
    ensures
        r < len,
        r == match selected {
            Some(i) => if i == 0 {
                len - 1
            } else {
                i - 1
            },
            None => 0,
        },
{
    match selected {
        Some(i) => if i == 0 {
            len - 1
        } else {
            i - 1
        },
        None => 0,
    }
}

/// The items separated by `sep`.
pub open spec fn joined(items: Seq<Seq<char>>, sep: Seq<char>) -> Seq<char>
    decreases items.len(),
{
    if items.len() == 0 {
        Seq::empty()
    } else if items.len() == 1 {
        items[0]
    } else {
        joined(items.drop_last(), sep) + sep + items.last()
    }
}

pub open spec fn texts(items: Seq<String>) -> Seq<Seq<char>> {
    items.map_values(|s: String| s@)
}

/// Relies on itertools::Itertools::join: the items, each written through its
/// `Display` impl (a string as itself), separated by `sep`.
#[verifier::external_body]
fn join_with(items: &Vec<String>, sep: &str) -> (r: String)
    ensures
        r@ == joined(texts(items@), sep@),
{
    items.iter().join(sep)
}

/// A list for a reader: "a", "a and b", or "a, b, and c" (with the serial
/// comma).
pub open spec fn list_text(items: Seq<String>) -> Seq<char> {
    if items.len() == 0 {
        Seq::empty()
    } else if items.len() == 1 {
        items[0]@
    } else if items.len() == 2 {
        items[0]@ + " and "@ + items[1]@
    } else {
        joined(texts(items.drop_last()), ", "@) + ", and "@ + items.last()@
    }
}

/// Writes the items as a list for a reader.
pub fn format_list(strings: &Vec<String>) -> (r: String)
    ensures
        r@ == list_text(strings@),
{
    let n = strings.len();
    if n == 0 {
        String::new()
    } else if n == 1 {
        strings[0].clone()
    } else if n == 2 {
        let mut r = strings[0].clone();
        r.append(" and ");
        r.append(strings[1].as_str());
        r
    } else {
        let mut front: Vec<String> = Vec::new();
        let mut i: usize = 0;
        while i < n - 1
            invariant
                n == strings.len(),
                n >= 3,
                i <= n - 1,
                front@ == strings@.take(i as int),
            decreases n - 1 - i,
        {
            front.push(strings[i].clone());
            assert(front@ =~= strings@.take(i + 1));
            i = i + 1;
        }
        assert(front@ =~= strings@.drop_last());
        let mut r = join_with(&front, ", ");
        r.append(", and ");
        r.append(strings[n - 1].as_str());
        r
    }
}

} // verus!
