//! Paths as texts, with `/` between their components.

use crate::text::{begins_with, finishes_with, has_prefix, has_suffix};
use vstd::prelude::*;
use vstd::string::*;

verus! {

/// Whether a path starts at the root.
pub open spec fn is_absolute(path: Seq<char>) -> bool {
    begins_with(path, "/"@)
}

/// `part` taken relative to `base`: an absolute `part` stands for itself.
pub open spec fn path_join(base: Seq<char>, part: Seq<char>) -> Seq<char> {
    if is_absolute(part) || base.len() == 0 {
        part
    } else if finishes_with(base, "/"@) {
        base + part
    } else {
        base + "/"@ + part
    }
}

/// `part` taken relative to `base`.
pub fn join_path(base: &str, part: &str) -> (r: String)
    ensures
        r@ == path_join(base@, part@),
{
    if has_prefix(part, "/") || base.unicode_len() == 0 {
        part.to_string()
    } else if has_suffix(base, "/") {
        base.to_string().concat(part)
    } else {
        base.to_string().concat("/").concat(part)
    }
}

/// A relative part extends the base.
pub proof fn lemma_join_extends(base: Seq<char>, part: Seq<char>)
    requires
        part.len() > 0,
        part[0] != '/',
    ensures
        begins_with(path_join(base, part), base),
{
    reveal_strlit("/");
    if is_absolute(part) {
        assert(part.take(1)[0] == '/');
    }
    assert(path_join(base, part).take(base.len() as int) =~= base);
}

/// A path that is taken from a directory stands below it, with one slash between
/// them; one that is absolute stands for itself.
pub proof fn law_joining_paths(base: Seq<char>, part: Seq<char>)
    ensures
        part.len() > 0 && part[0] == '/' ==> path_join(base, part) == part,
        base.len() == 0 ==> path_join(base, part) == part,
        base.len() > 0 && base.last() != '/' && !(part.len() > 0 && part[0] == '/') ==> path_join(
            base,
            part,
        ) == base.push('/') + part,
        base.len() > 0 && base.last() == '/' && !(part.len() > 0 && part[0] == '/') ==> path_join(
            base,
            part,
        ) == base + part,
{
    reveal_strlit("/");
    if part.len() > 0 {
        assert(part.take(1)[0] == part[0]);
        if part[0] == '/' {
            assert(part.take(1) =~= "/"@);
        }
    }
    if base.len() > 0 {
        assert(base.skip(base.len() - 1)[0] == base.last());
        if base.last() == '/' {
            assert(base.skip(base.len() - 1) =~= "/"@);
        }
    }
    assert(base + "/"@ + part =~= base.push('/') + part);
}

} // verus!
