//! Shell completion: the shells a static script is printed for, and the
//! rule for which task names complete a partly typed word.

use vstd::prelude::*;

use crate::text::{chars_of, copy_string, has_prefix, starts_with_at};

verus! {

/// The shells `completions` prints a static script for.
#[derive(Debug, Clone, Copy, PartialEq, Eq, Structural)]
pub enum CompletionShell {
    Bash,
    Zsh,
    Fish,
}

/// The names that complete `current`: those starting with it, in order.
pub open spec fn completing(names: Seq<Seq<char>>, current: Seq<char>) -> Seq<Seq<char>>
    decreases names.len(),
{
    if names.len() == 0 {
        Seq::empty()
    } else if has_prefix(names.last(), current) {
        completing(names.drop_last(), current).push(names.last())
    } else {
        completing(names.drop_last(), current)
    }
}

/// The task names offered for the partly typed `current`:
/// [`completing`].
pub fn names_completing(names: &Vec<String>, current: &str) -> (r: Vec<String>)
    ensures
        r@.map_values(|s: String| s@) == completing(names@.map_values(|s: String| s@), current@),
{
    let ghost all = names@.map_values(|s: String| s@);
    let mut r: Vec<String> = Vec::new();
    let mut i: usize = 0;
    assert(all.take(0) =~= Seq::<Seq<char>>::empty());
    assert(r@.map_values(|s: String| s@) =~= Seq::<Seq<char>>::empty());
    while i < names.len()
        invariant
            i <= names@.len(),
            all == names@.map_values(|s: String| s@),
            r@.map_values(|s: String| s@) == completing(all.take(i as int), current@),
        decreases names@.len() - i,
    {
        let ghost before = r@.map_values(|s: String| s@);
        proof {
            let upto = all.take(i + 1);
            assert(upto.drop_last() =~= all.take(i as int));
            assert(upto.last() == names@[i as int]@);
        }
        let v = chars_of(names[i].as_str());
        assert(v@.subrange(0, v@.len() as int) =~= v@);
        if starts_with_at(&v, 0, current) {
            let c = copy_string(&names[i]);
            r.push(c);
            assert(r@.map_values(|s: String| s@) =~= before.push(names@[i as int]@));
        }
        i = i + 1;
    }
    assert(all.take(names@.len() as int) =~= all);
    r
}

} // verus!
