//! Repository identifiers of the form `<owner>/<repo>`.
use vstd::prelude::*;

verus! {

/// Why a repository identifier was refused.
#[derive(Debug, Clone, Copy, PartialEq, Eq, Structural)]
pub enum ParseError {
    /// Not two non-empty parts around exactly one `/`.
    InvalidFormat,
}

/// A repository on the hosting service, named by its owner and its name.
#[derive(Debug)]
pub struct OwnerRepo {
    pub owner: String,
    pub repo: String,
}

/// No character of `s` is a `/`.
pub open spec fn slash_free(s: Seq<char>) -> bool {
    forall|i: int| 0 <= i < s.len() ==> s[i] != '/'
}

/// `s` is `owner`, one `/`, and `repo`, with both parts non-empty and free of `/`.
pub open spec fn splits_into(s: Seq<char>, owner: Seq<char>, repo: Seq<char>) -> bool {
    &&& owner.len() > 0
    &&& repo.len() > 0
    &&& slash_free(owner)
    &&& slash_free(repo)
    &&& s == owner + seq!['/'] + repo
}

/// `s` is a well-formed repository identifier.
pub open spec fn is_owner_repo(s: Seq<char>) -> bool {
    exists|owner: Seq<char>, repo: Seq<char>| splits_into(s, owner, repo)
}

impl OwnerRepo {
    /// Parses `<owner>/<repo>`: exactly one `/`, with a non-empty part on
    /// each side of it.
    pub fn new(orinput: &String) -> (r: Result<OwnerRepo, ParseError>)
        ensures
            r is Ok <==> is_owner_repo(orinput@),
            r matches Ok(o) ==> splits_into(orinput@, o.owner@, o.repo@),
            r matches Err(e) ==> e == ParseError::InvalidFormat,
    {
        let s = orinput.as_str();
        let len = s.unicode_len();
        let mut first: Option<usize> = None;
        let mut i: usize = 0;
        while i < len
            invariant
                len == s@.len(),
                s@ == orinput@,
                i <= len,
                first matches Some(k) ==> k < i && s@[k as int] == '/',
                forall|j: int|
                    0 <= j < i && s@[j] == '/' ==> (first matches Some(k) && j == k),
            decreases len - i,
        {
            let c = s.get_char(i);
            if c == '/' {
                if let Some(k) = first {
                    proof {
                        lemma_owner_repo_refusals(s@);
                        assert(s@[k as int] == '/' && s@[i as int] == '/');
                    }
                    return Err(ParseError::InvalidFormat);
                }
                first = Some(i);
            }
            i = i + 1;
        }
        match first {
            None => {
                proof {
                    assert forall|j: int| 0 <= j < s@.len() implies s@[j] != '/' by {}
                    lemma_owner_repo_refusals(s@);
                }
                Err(ParseError::InvalidFormat)
            },
            Some(k) => {
                if k == 0 || k + 1 == len {
                    proof {
                        lemma_owner_repo_refusals(s@);
                    }
                    return Err(ParseError::InvalidFormat);
                }
                let owner = String::from_str(s.substring_char(0, k));
                let repo = String::from_str(s.substring_char(k + 1, len));
                assert(s@ =~= owner@ + seq!['/'] + repo@);
                assert(splits_into(s@, owner@, repo@));
                Ok(OwnerRepo { owner, repo })
            },
        }
    }
}

/// Where `s` splits into `owner` and `repo`, its one `/` stands at `owner.len()`.
proof fn lemma_split_position(s: Seq<char>, owner: Seq<char>, repo: Seq<char>)
    requires
        splits_into(s, owner, repo),
    ensures
        s[owner.len() as int] == '/',
        forall|j: int| 0 <= j < s.len() && j != owner.len() ==> s[j] != '/',
{
    assert forall|j: int| 0 <= j < s.len() && j != owner.len() implies s[j] != '/' by {
        if j < owner.len() {
            assert(s[j] == owner[j]);
        } else {
            assert(s[j] == repo[j - owner.len() - 1]);
        }
    }
}

/// An identifier with no `/`, with two or more, or with nothing before or
/// after its `/` is refused.
pub proof fn lemma_owner_repo_refusals(s: Seq<char>)
    ensures
        slash_free(s) ==> !is_owner_repo(s),
        forall|a: int, b: int|
            0 <= a < b < s.len() && #[trigger] s[a] == '/' && #[trigger] s[b] == '/'
                ==> !is_owner_repo(s),
        s.len() > 0 && (s[0] == '/' || s.last() == '/') ==> !is_owner_repo(s),
{
    if is_owner_repo(s) {
        let (owner, repo) = choose|owner: Seq<char>, repo: Seq<char>| splits_into(s, owner, repo);
        lemma_split_position(s, owner, repo);
    }
}

/// Two non-empty parts free of `/`, joined by one `/`, make an identifier that
/// is accepted and splits back into exactly those parts.
pub proof fn lemma_owner_repo_round_trip(owner: Seq<char>, repo: Seq<char>)
    requires
        owner.len() > 0,
        repo.len() > 0,
        slash_free(owner),
        slash_free(repo),
    ensures
        is_owner_repo(owner + seq!['/'] + repo),
        forall|o: Seq<char>, r: Seq<char>|
            #[trigger] splits_into(owner + seq!['/'] + repo, o, r) ==> o == owner && r == repo,
{
    let s = owner + seq!['/'] + repo;
    assert(splits_into(s, owner, repo));
    lemma_split_position(s, owner, repo);
    assert forall|o: Seq<char>, r: Seq<char>| #[trigger] splits_into(s, o, r) implies o == owner
        && r == repo by {
        lemma_split_position(s, o, r);
        assert(o.len() == owner.len());
        assert(o =~= s.subrange(0, o.len() as int));
        assert(owner =~= s.subrange(0, owner.len() as int));
        assert(r =~= s.subrange(o.len() as int + 1, s.len() as int));
        assert(repo =~= s.subrange(owner.len() as int + 1, s.len() as int));
    }
}

} // verus!
