//! Where the explorer's page links lead: the homepage it exits to, and the
//! query that asks for the demo data.

use vstd::prelude::*;
use crate::text::{chars_of, contains_str, push_str, string_of, sub_chars};

verus! {

/// The position of the last `/` of a text, if it has one.
pub open spec fn last_slash(s: Seq<char>) -> Option<int>
    decreases s.len(),
{
    if s.len() == 0 {
        None
    } else if s.last() == '/' {
        Some(s.len() - 1)
    } else {
        last_slash(s.drop_last())
    }
}

/// The homepage that the explorer exits to: the site's origin when the
/// explorer is served under `/app/`, otherwise the origin, a slash, and the
/// path up to its last slash (the whole path when it has none).
pub open spec fn home_url_spec(origin: Seq<char>, path: Seq<char>) -> Seq<char> {
    if "/app/"@.is_suffix_of(path) {
        origin
    } else {
        origin + "/"@ + match last_slash(path) {
            Some(i) => path.take(i),
            None => path,
        }
    }
}

/// The homepage that the explorer exits to, from the page's origin and path.
pub fn home_url(origin: &str, path: &str) -> (url: String)
    ensures
        url@ == home_url_spec(origin@, path@),
{
    let p = chars_of(path);
    let suffix = chars_of("/app/");
    let is_app = p.len() >= 5 && {
        let tail = sub_chars(&p, p.len() - 5, p.len());
        crate::text::has_prefix(&tail, &suffix)
    };
    proof {
        reveal_strlit("/app/");
        if p.len() >= 5 {
            assert(suffix@.is_suffix_of(p@) <==> p@.subrange(p.len() - 5, p.len() as int) =~= suffix@);
        }
    }
    if is_app {
        proof {
            assert(p@.subrange(p.len() - 5, p.len() as int) =~= suffix@);
        }
        return String::from_str(origin);
    }
    let mut i: usize = p.len();
    assert(p@.take(i as int) =~= p@);
    while i > 0 && p[i - 1] != '/'
        invariant
            i <= p.len(),
            last_slash(p@.take(i as int)) == last_slash(p@),
        decreases i,
    {
        assert(p@.take(i as int).drop_last() =~= p@.take(i - 1));
        i -= 1;
    }
    let mut url = String::from_str(origin);
    push_str(&mut url, "/");
    if i == 0 {
        proof {
            assert(last_slash(p@.take(0)) is None);
        }
        push_str(&mut url, path);
    } else {
        proof {
            assert(p@.take(i as int).last() == '/');
            assert(last_slash(p@) == Some(i - 1));
        }
        let head = string_of(&sub_chars(&p, 0, i - 1));
        push_str(&mut url, head.as_str());
    }
    url
}

/// Whether the page's query asks for the demo data to be loaded afresh.
pub fn demo_requested(search: &str) -> (b: bool)
    ensures
        b == crate::text::contains_text(search@, "demo=true"@),
{
    contains_str(search, "demo=true")
}

} // verus!
