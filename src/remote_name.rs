//! Deterministic remote names for forks: a fixed namespace tag followed by
//! the fork's `owner/name` with every `/` turned into `_`.
use vstd::prelude::*;

verus! {

/// The namespace tag in front of every derived remote name.
pub const REMOTE_TAG: &'static str = "rgf__";

/// The characters of `REMOTE_TAG`.
pub open spec fn remote_tag() -> Seq<char> {
    seq!['r', 'g', 'f', '_', '_']
}

/// A single character of a full name, as it stands in the remote name.
pub open spec fn separator_safe(c: char) -> char {
    if c == '/' {
        '_'
    } else {
        c
    }
}

/// The remote name derived from a fork's full name.
pub open spec fn remote_name_of(full_name: Seq<char>) -> Seq<char> {
    remote_tag() + full_name.map_values(|c: char| separator_safe(c))
}

/// Derives the remote name under which a fork is registered locally.
pub fn unify_remote_name(name: &String) -> (r: String)
    ensures
        r@ == remote_name_of(name@),
        r@.len() == name@.len() + remote_tag().len(),
{
    proof {
        reveal_strlit("rgf__");
    }
    let mut out = String::from_str(REMOTE_TAG);
    assert(out@ =~= remote_tag());
    let s = name.as_str();
    let len = s.unicode_len();
    let mut i: usize = 0;
    while i < len
        invariant
            len == s@.len(),
            s@ == name@,
            i <= len,
            out@ == remote_tag() + s@.subrange(0, i as int).map_values(|c: char| separator_safe(c)),
        decreases len - i,
    {
        let c = s.get_char(i);
        let ghost before = out@;
        if c == '/' {
            out.append("_");
            proof {
                reveal_strlit("_");
            }
            assert("_"@ =~= seq![separator_safe(c)]);
        } else {
            let piece = s.substring_char(i, i + 1);
            out.append(piece);
            assert(piece@ =~= seq![separator_safe(c)]);
        }
        assert(out@ =~= before.push(separator_safe(c)));
        assert(s@.subrange(0, i + 1).map_values(|c: char| separator_safe(c)) =~= s@.subrange(
            0,
            i as int,
        ).map_values(|c: char| separator_safe(c)).push(separator_safe(c)));
        i = i + 1;
    }
    assert(s@.subrange(0, len as int) =~= s@);
    out
}

/// Two full names that differ only where one holds `/` and the other `_`.
pub open spec fn same_up_to_separator(a: Seq<char>, b: Seq<char>) -> bool {
    &&& a.len() == b.len()
    &&& forall|i: int| 0 <= i < a.len() ==> separator_safe(#[trigger] a[i]) == separator_safe(b[i])
}

/// Two full names give the same remote name exactly when they differ only
/// in `/` against `_`.
pub proof fn lemma_remote_name_collision(a: Seq<char>, b: Seq<char>)
    ensures
        remote_name_of(a) == remote_name_of(b) <==> same_up_to_separator(a, b),
{
    let ma = a.map_values(|c: char| separator_safe(c));
    let mb = b.map_values(|c: char| separator_safe(c));
    if remote_name_of(a) == remote_name_of(b) {
        assert(ma =~= remote_name_of(a).subrange(5, remote_name_of(a).len() as int));
        assert(mb =~= remote_name_of(b).subrange(5, remote_name_of(b).len() as int));
        assert forall|i: int| 0 <= i < a.len() implies separator_safe(#[trigger] a[i])
            == separator_safe(b[i]) by {
            assert(ma[i] == mb[i]);
        }
    }
    if same_up_to_separator(a, b) {
        assert(ma =~= mb);
    }
}

/// Distinct full names give distinct remote names, unless they differ only
/// in `/` against `_` (as `a/b` and `a_b` do).
pub proof fn lemma_remote_name_injective(a: Seq<char>, b: Seq<char>)
    requires
        a != b,
        !same_up_to_separator(a, b),
    ensures
        remote_name_of(a) != remote_name_of(b),
{
    lemma_remote_name_collision(a, b);
}

/// The remote name depends on the characters of the full name alone: equal
/// full names, from any two calls, give equal remote names.
pub proof fn lemma_remote_name_deterministic(a: Seq<char>, b: Seq<char>)
    requires
        a == b,
    ensures
        remote_name_of(a) == remote_name_of(b),
{
}

} // verus!
