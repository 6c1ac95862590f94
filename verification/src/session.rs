//! Who a plugin page acts for.

use crate::text;
use vstd::prelude::*;

verus! {

/// A running plugin: a plugin under development and an installed one of the same id are
/// different sessions.
#[derive(Debug)]
pub struct ActiveSession {
    pub id: String,
    pub dev: bool,
}

impl View for ActiveSession {
    type V = (Seq<char>, bool);

    open spec fn view(&self) -> (Seq<char>, bool) {
        (self.id@, self.dev)
    }
}

impl Clone for ActiveSession {
    fn clone(&self) -> (r: Self)
        ensures
            r@ == self@,
    {
        ActiveSession { id: self.id.clone(), dev: self.dev }
    }
}

/// How a session is named in logs and routes.
pub open spec fn session_name(s: (Seq<char>, bool)) -> Seq<char> {
    if s.1 {
        "dev:"@ + s.0
    } else {
        s.0
    }
}

impl ActiveSession {
    /// Whether two sessions are the same: id and development mark both agree.
    pub fn same_as(&self, other: &ActiveSession) -> (r: bool)
        ensures
            r == (self@ == other@),
    {
        self.dev == other.dev && text::str_eq(self.id.as_str(), other.id.as_str())
    }
}

/// How a session is named, see [`session_name`].
pub fn who(session: &ActiveSession) -> (r: String)
    ensures
        r@ == session_name(session@),
{
    if session.dev {
        text::owned("dev:").concat(session.id.as_str())
    } else {
        session.id.clone()
    }
}

/// Sessions that differ are named differently, where no plugin is called as one that runs for
/// development is named.
pub proof fn sessions_have_their_own_names(a: (Seq<char>, bool), b: (Seq<char>, bool))
    requires
        !a.1 ==> !"dev:"@.is_prefix_of(a.0),
        !b.1 ==> !"dev:"@.is_prefix_of(b.0),
        session_name(a) == session_name(b),
    ensures
        a == b,
{
    reveal_strlit("dev:");
    let (x, y) = (session_name(a), session_name(b));
    if a.1 {
        assert(x.subrange(0, 4) =~= "dev:"@);
        assert(x.skip(4) =~= a.0);
    }
    if b.1 {
        assert(y.subrange(0, 4) =~= "dev:"@);
        assert(y.skip(4) =~= b.0);
    }
}

} // verus!
