//! Session-tag bookkeeping for multi-step cycles.
//!
//! Maps human-readable session tags to agent-assigned session identifiers.
//! A fresh manager is created for each cycle execution, so sessions never
//! outlive one cycle.

use vstd::prelude::*;

use crate::text::chars_of;
use crate::text::eq_chars;
use crate::text::string_from_chars;

verus! {

/// The session id bound to `tag`, the last registration winning.
pub open spec fn spec_session_lookup(pairs: Seq<(Seq<char>, Seq<char>)>, tag: Seq<char>) -> Option<
    Seq<char>,
>
    decreases pairs.len(),
{
    if pairs.len() == 0 {
        None
    } else if pairs.last().0 == tag {
        Some(pairs.last().1)
    } else {
        spec_session_lookup(pairs.drop_last(), tag)
    }
}

/// Session tag to session id mapping for one cycle execution.
pub struct SessionManager {
    registered: Vec<(String, String)>,
}

impl View for SessionManager {
    type V = Seq<(Seq<char>, Seq<char>)>;

    closed spec fn view(&self) -> Seq<(Seq<char>, Seq<char>)> {
        self.registered@.map_values(|p: (String, String)| (p.0@, p.1@))
    }
}

impl SessionManager {
    /// Create an empty manager.
    pub fn new() -> (r: SessionManager)
        ensures
            r@ == Seq::<(Seq<char>, Seq<char>)>::empty(),
    {
        let r = SessionManager { registered: Vec::new() };
        proof {
            assert(r@ =~= Seq::<(Seq<char>, Seq<char>)>::empty());
        }
        r
    }

    /// Bind a tag to a session id; a later binding shadows an earlier one.
    pub fn register(&mut self, tag: &str, session_id: String)
        ensures
            final(self)@ == old(self)@.push((tag@, session_id@)),
    {
        let ghost pre = self@;
        self.registered.push((tag.to_owned(), session_id));
        proof {
            assert(self@ =~= pre.push((tag@, self.registered@.last().1@)));
        }
    }

    /// Look up the session id bound to `tag`.
    pub fn get_session_id(&self, tag: &str) -> (r: Option<&String>)
        ensures
            match r {
                Some(id) => spec_session_lookup(self@, tag@) == Some(id@),
                None => spec_session_lookup(self@, tag@) is None,
            },
    {
        let target = chars_of(tag);
        let mut k: usize = self.registered.len();
        proof {
            assert(self@.take(self@.len() as int) =~= self@);
        }
        while k > 0
            invariant
                k <= self.registered@.len(),
                self@.len() == self.registered@.len(),
                spec_session_lookup(self@, tag@) == spec_session_lookup(
                    self@.take(k as int),
                    tag@,
                ),
            decreases k,
        {
            proof {
                assert(self@.take(k as int).last() == self@[k - 1]);
                assert(self@.take(k as int).drop_last() =~= self@.take(k - 1));
            }
            let cand = chars_of(self.registered[k - 1].0.as_str());
            if eq_chars(&cand, &target) {
                return Some(&self.registered[k - 1].1);
            }
            k = k - 1;
        }
        proof {
            assert(self@.take(0) =~= Seq::<(Seq<char>, Seq<char>)>::empty());
        }
        None
    }

    /// The extra arguments that resume a session: `--resume <id>` when the
    /// tag is present and registered, nothing otherwise.
    pub fn resume_args(&self, session_tag: Option<&str>) -> (r: Vec<String>)
        ensures
            r.deep_view() == spec_resume_args(self@, match session_tag {
                Some(t) => Some(t@),
                None => None,
            }),
    {
        let tag = match session_tag {
            Some(t) => t,
            None => {
                let r: Vec<String> = Vec::new();
                proof {
                    assert(r.deep_view() =~~= Seq::<Seq<char>>::empty());
                }
                return r;
            },
        };
        match self.get_session_id(tag) {
            Some(id) => {
                let mut r: Vec<String> = Vec::new();
                r.push("--resume".to_owned());
                r.push(crate::stream::clone_string(id));
                proof {
                    assert(r.deep_view() =~~= seq!["--resume"@, id@]);
                }
                r
            },
            None => {
                let r: Vec<String> = Vec::new();
                proof {
                    assert(r.deep_view() =~~= Seq::<Seq<char>>::empty());
                }
                r
            },
        }
    }
}

/// What `resume_args` yields: the resume flag and id for a registered tag,
/// nothing otherwise.
pub open spec fn spec_resume_args(
    pairs: Seq<(Seq<char>, Seq<char>)>,
    tag: Option<Seq<char>>,
) -> Seq<Seq<char>> {
    match tag {
        Some(t) => match spec_session_lookup(pairs, t) {
            Some(id) => seq!["--resume"@, id],
            None => Seq::empty(),
        },
        None => Seq::empty(),
    }
}

} // verus!
