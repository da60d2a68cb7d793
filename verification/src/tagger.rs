//! Classification of an activity by an ordered list of named rules:
//! the first rule that matches wins.

use vstd::prelude::*;

use crate::activity::{Activity, SpecActivity};
use crate::matcher::{patterns_valid, spec_matches, Matcher, SpecMatcher};

verus! {

/// A named rule.
pub struct Tag {
    pub name: String,
    pub matcher: Matcher,
}

/// The mathematical value of a [`Tag`].
pub ghost struct SpecTag {
    pub name: Seq<char>,
    pub matcher: SpecMatcher,
}

impl View for Tag {
    type V = SpecTag;

    open spec fn view(&self) -> SpecTag {
        SpecTag { name: self.name@, matcher: self.matcher@ }
    }
}

/// An ordered list of tags; earlier tags take priority.
pub struct Tagger {
    pub matchers: Vec<Tag>,
}

impl View for Tagger {
    type V = Seq<SpecTag>;

    open spec fn view(&self) -> Seq<SpecTag> {
        self.matchers@.map_values(|t: Tag| t@)
    }
}

/// Every rule of the tagger holds only patterns that compile. Taggers
/// built from parsed rules always satisfy this.
pub open spec fn tagger_wf(tags: Seq<SpecTag>) -> bool {
    forall|i: int| 0 <= i < tags.len() ==> patterns_valid(#[trigger] tags[i].matcher)
}

/// The name of the first tag whose rule matches `a`, in list order.
pub open spec fn spec_tag(tags: Seq<SpecTag>, a: SpecActivity) -> Option<Seq<char>>
    decreases tags.len(),
{
    if tags.len() == 0 {
        None
    } else if spec_matches(tags[0].matcher, a) {
        Some(tags[0].name)
    } else {
        spec_tag(tags.subrange(1, tags.len() as int), a)
    }
}

impl Tagger {
    /// A tagger with no rules.
    pub fn new() -> (t: Tagger)
        ensures
            t@ =~= Seq::<SpecTag>::empty(),
    {
        Tagger { matchers: Vec::new() }
    }

    /// The name of the first tag (in list order) whose rule matches
    /// `activity`, or `None` when no tag matches.
    pub fn tag<'a>(&'a self, activity: &Activity) -> (r: Option<&'a str>)
        requires
            tagger_wf(self@),
        ensures
            match r {
                Some(name) => spec_tag(self@, activity@) == Some(name@),
                None => spec_tag(self@, activity@) is None,
            },
    {
        let ghost tags = self@;
        proof {
            assert(tags.subrange(0, tags.len() as int) =~= tags);
        }
        let mut i: usize = 0;
        while i < self.matchers.len()
            invariant
                tagger_wf(tags),
                tags == self@,
                i <= self.matchers@.len(),
                tags.len() == self.matchers@.len(),
                spec_tag(tags, activity@) == spec_tag(
                    tags.subrange(i as int, tags.len() as int),
                    activity@,
                ),
            decreases self.matchers@.len() - i,
        {
            let tg = &self.matchers[i];
            proof {
                assert(tg@ == tags[i as int]);
            }
            if tg.matcher.matches(activity) {
                proof {
                    let rest = tags.subrange(i as int, tags.len() as int);
                    assert(rest[0] == tags[i as int]);
                }
                return Some(tg.name.as_str());
            }
            proof {
                let rest = tags.subrange(i as int, tags.len() as int);
                assert(rest[0] == tags[i as int]);
                assert(rest.subrange(1, rest.len() as int) =~= tags.subrange(
                    i + 1,
                    tags.len() as int,
                ));
            }
            i = i + 1;
        }
        proof {
            assert(tags.subrange(i as int, tags.len() as int).len() == 0);
        }
        None
    }
}

} // verus!
