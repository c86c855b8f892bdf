//! Tags and bonuses of all content, computed once.

use crate::classify::{derive_ability_tags, derive_status_tags, StatusTagLookup};
use crate::content::{
    find, lookup, AbilityDef, ContentView, Keyed, StatusBonuses, StatusDef,
};
use crate::tags::{AbilityTag, AbilityTagSet, StatusTag, StatusTagSet};
use vstd::prelude::*;

verus! {

/// What is cached of one status.
#[derive(Debug)]
pub struct StatusEntry {
    pub id: String,
    pub tags: StatusTagSet,
    pub bonuses: StatusBonuses,
}

impl Keyed for StatusEntry {
    open spec fn key(&self) -> Seq<char> {
        self.id@
    }

    fn has_key(&self, id: &String) -> (r: bool) {
        self.id == *id
    }
}

/// Tags and bonuses by status.
#[derive(Debug)]
pub struct StatusTagCache {
    pub entries: Vec<StatusEntry>,
}

impl StatusTagCache {
    /// The tags of a status; none for an unknown one.
    pub open spec fn spec_get(&self, id: Seq<char>) -> Set<StatusTag> {
        match lookup(self.entries@, id) {
            Some(e) => e.tags@,
            None => Set::empty(),
        }
    }

    /// The bonuses of a status; zero for an unknown one.
    pub open spec fn spec_bonuses(&self, id: Seq<char>) -> StatusBonuses {
        match lookup(self.entries@, id) {
            Some(e) => e.bonuses,
            None => StatusBonuses::zero(),
        }
    }

    /// The tags of a status; none for an unknown one.
    pub fn get(&self, id: &String) -> (r: StatusTagSet)
        ensures
            r@ == self.spec_get(id@),
    {
        match find(&self.entries, id) {
            Some(e) => e.tags,
            None => StatusTagSet::empty(),
        }
    }

    /// The bonuses of a status; zero for an unknown one.
    pub fn bonuses(&self, id: &String) -> (r: StatusBonuses)
        ensures
            r == self.spec_bonuses(id@),
    {
        match find(&self.entries, id) {
            Some(e) => e.bonuses,
            None => StatusBonuses::default(),
        }
    }

    /// Whether a status is known.
    pub fn contains_key(&self, id: &String) -> (r: bool)
        ensures
            r == (lookup(self.entries@, id@) is Some),
    {
        find(&self.entries, id).is_some()
    }
}

impl StatusTagLookup for StatusTagCache {
    open spec fn tags_of(&self, id: Seq<char>) -> Set<StatusTag> {
        self.spec_get(id)
    }

    fn get_tags(&self, id: &String) -> (r: StatusTagSet) {
        self.get(id)
    }
}

/// What is cached of one ability.
#[derive(Debug)]
pub struct AbilityEntry {
    pub id: String,
    /// Tags read off the definition.
    pub derived: AbilityTagSet,
    /// Tags that the content names instead.
    pub replaced_by: Option<AbilityTagSet>,
}

impl Keyed for AbilityEntry {
    open spec fn key(&self) -> Seq<char> {
        self.id@
    }

    fn has_key(&self, id: &String) -> (r: bool) {
        self.id == *id
    }
}

/// Tags by ability.
#[derive(Debug)]
pub struct AbilityTagCache {
    pub entries: Vec<AbilityEntry>,
}

impl AbilityTagCache {
    /// The derived tags of an ability; none for an unknown one.
    pub open spec fn spec_get(&self, id: Seq<char>) -> Set<AbilityTag> {
        match lookup(self.entries@, id) {
            Some(e) => e.derived@,
            None => Set::empty(),
        }
    }

    /// The tags that count: the named ones where the content names any, else
    /// the derived ones.
    pub open spec fn spec_effective(&self, id: Seq<char>) -> Set<AbilityTag> {
        match lookup(self.entries@, id) {
            Some(e) => match e.replaced_by {
                Some(tags) => tags@,
                None => e.derived@,
            },
            None => Set::empty(),
        }
    }

    /// The derived tags of an ability; none for an unknown one.
    pub fn get(&self, id: &String) -> (r: AbilityTagSet)
        ensures
            r@ == self.spec_get(id@),
    {
        match find(&self.entries, id) {
            Some(e) => e.derived,
            None => AbilityTagSet::empty(),
        }
    }

    /// The tags that count: the named ones where the content names any, else
    /// the derived ones.
    pub fn effective(&self, id: &String) -> (r: AbilityTagSet)
        ensures
            r@ == self.spec_effective(id@),
    {
        match find(&self.entries, id) {
            Some(e) => match e.replaced_by {
                Some(tags) => tags,
                None => e.derived,
            },
            None => AbilityTagSet::empty(),
        }
    }

    /// Whether an ability is known.
    pub fn contains_key(&self, id: &String) -> (r: bool)
        ensures
            r == (lookup(self.entries@, id@) is Some),
    {
        find(&self.entries, id).is_some()
    }
}

/// Whether every name is a tag's.
pub open spec fn all_known(names: Seq<String>) -> bool {
    forall|i: int| 0 <= i < names.len() ==> AbilityTag::of_text((#[trigger] names[i])@) is Some
}

/// The tags that a list names.
pub open spec fn named_tags(names: Seq<String>) -> Set<AbilityTag> {
    Set::new(
        |t: AbilityTag| exists|i: int| 0 <= i < names.len() && #[trigger] names[i]@ == t.text(),
    )
}

/// Whether every tag name that an ability is given is a tag's.
pub open spec fn override_known(def: AbilityDef) -> bool {
    match def.ai_tags_override {
        Some(names) => all_known(names@),
        None => true,
    }
}

/// The set of the named tags.
fn parse_override(names: &Vec<String>) -> (r: AbilityTagSet)
    requires
        all_known(names@),
    ensures
        r@ == named_tags(names@),
{
    match AbilityTagSet::from_names(names) {
        Ok(set) => {
            assert(set@ =~= named_tags(names@));
            set
        },
        Err(_) => AbilityTagSet::empty(),
    }
}

/// The first ability, by its place, that is given a name which is no tag's.
pub fn unknown_override(content: &ContentView) -> (r: Option<usize>)
    ensures
        match r {
            Some(i) => {
                &&& i < content.abilities@.len()
                &&& !override_known(content.abilities@[i as int])
                &&& forall|j: int|
                    0 <= j < i ==> override_known(#[trigger] content.abilities@[j])
            },
            None => forall|j: int|
                0 <= j < content.abilities@.len() ==> override_known(
                    #[trigger] content.abilities@[j],
                ),
        },
{
    let mut i: usize = 0;
    while i < content.abilities.len()
        invariant
            i <= content.abilities.len(),
            forall|j: int| 0 <= j < i ==> override_known(#[trigger] content.abilities@[j]),
        decreases content.abilities.len() - i,
    {
        if let Some(names) = &content.abilities[i].ai_tags_override {
            if AbilityTagSet::from_names(names).is_err() {
                return Some(i);
            }
        }
        i = i + 1;
    }
    None
}

/// Whether a cache holds the tags and bonuses of every status of the content.
pub open spec fn status_cache_of(cache: StatusTagCache, defs: Seq<StatusDef>) -> bool {
    &&& cache.entries@.len() == defs.len()
    &&& forall|i: int|
        0 <= i < defs.len() ==> {
            &&& (#[trigger] cache.entries@[i]).id@ == defs[i].id@
            &&& cache.entries@[i].tags@ == crate::classify::status_tags(defs[i])
            &&& cache.entries@[i].bonuses == defs[i].bonuses
        }
}

/// Whether a cache holds the tags of every ability of the content.
pub open spec fn ability_cache_of(
    cache: AbilityTagCache,
    defs: Seq<AbilityDef>,
    statuses: StatusTagCache,
    status_defs: Seq<StatusDef>,
) -> bool {
    &&& cache.entries@.len() == defs.len()
    &&& forall|i: int|
        0 <= i < defs.len() ==> {
            &&& (#[trigger] cache.entries@[i]).id@ == defs[i].id@
            &&& cache.entries@[i].derived@ == crate::classify::ability_tags(
                defs[i],
                statuses,
                status_defs,
            )
            &&& match (cache.entries@[i].replaced_by, defs[i].ai_tags_override) {
                (Some(tags), Some(names)) => tags@ == named_tags(names@),
                (None, None) => true,
                _ => false,
            }
        }
}

/// Computes both caches: first the statuses, then the abilities, which depend
/// on them. Every given tag name must be a tag's (see [`unknown_override`]).
pub fn build_caches(content: &ContentView) -> (r: (StatusTagCache, AbilityTagCache))
    requires
        forall|i: int|
            0 <= i < content.abilities@.len() ==> override_known(#[trigger] content.abilities@[i]),
    ensures
        status_cache_of(r.0, content.statuses@),
        ability_cache_of(r.1, content.abilities@, r.0, content.statuses@),
{
    let mut statuses: Vec<StatusEntry> = Vec::new();
    let mut i: usize = 0;
    while i < content.statuses.len()
        invariant
            i <= content.statuses.len(),
            statuses@.len() == i,
            forall|j: int|
                0 <= j < i ==> {
                    &&& (#[trigger] statuses@[j]).id@ == content.statuses@[j].id@
                    &&& statuses@[j].tags@ == crate::classify::status_tags(content.statuses@[j])
                    &&& statuses@[j].bonuses == content.statuses@[j].bonuses
                },
        decreases content.statuses.len() - i,
    {
        let def = &content.statuses[i];
        statuses.push(
            StatusEntry {
                id: def.id.clone(),
                tags: derive_status_tags(def),
                bonuses: def.bonuses,
            },
        );
        i = i + 1;
    }
    let status_cache = StatusTagCache { entries: statuses };
    let mut abilities: Vec<AbilityEntry> = Vec::new();
    let mut k: usize = 0;
    while k < content.abilities.len()
        invariant
            k <= content.abilities.len(),
            abilities@.len() == k,
            forall|j: int|
                0 <= j < content.abilities@.len() ==> override_known(
                    #[trigger] content.abilities@[j],
                ),
            forall|j: int|
                0 <= j < k ==> {
                    &&& (#[trigger] abilities@[j]).id@ == content.abilities@[j].id@
                    &&& abilities@[j].derived@ == crate::classify::ability_tags(
                        content.abilities@[j],
                        status_cache,
                        content.statuses@,
                    )
                    &&& match (abilities@[j].replaced_by, content.abilities@[j].ai_tags_override) {
                        (Some(tags), Some(names)) => tags@ == named_tags(names@),
                        (None, None) => true,
                        _ => false,
                    }
                },
        decreases content.abilities.len() - k,
    {
        let def = &content.abilities[k];
        assert(override_known(content.abilities@[k as int]));
        let replaced_by = match &def.ai_tags_override {
            Some(names) => Some(parse_override(names)),
            None => None,
        };
        abilities.push(
            AbilityEntry {
                id: def.id.clone(),
                derived: derive_ability_tags(def, &status_cache, &content.statuses),
                replaced_by,
            },
        );
        k = k + 1;
    }
    (status_cache, AbilityTagCache { entries: abilities })
}

/// Two lists with the same ids in the same places answer a lookup from the same
/// place.
proof fn same_keys_same_place<T: Keyed, U: Keyed>(a: Seq<T>, b: Seq<U>, id: Seq<char>)
    requires
        a.len() == b.len(),
        forall|i: int| 0 <= i < a.len() ==> (#[trigger] a[i]).key() == b[i].key(),
    ensures
        lookup(a, id) is None <==> lookup(b, id) is None,
        lookup(a, id) is Some ==> exists|i: int|
            #![trigger a[i]]
            0 <= i < a.len() && lookup(a, id) == Some(a[i]) && lookup(b, id) == Some(b[i]),
    decreases a.len(),
{
    if a.len() > 0 {
        assert(a[0].key() == b[0].key());
        if a[0].key() != id {
            let ra = a.drop_first();
            let rb = b.drop_first();
            assert forall|i: int| 0 <= i < ra.len() implies (#[trigger] ra[i]).key()
                == rb[i].key() by {
                assert(a[i + 1].key() == b[i + 1].key());
            }
            same_keys_same_place(ra, rb, id);
            if lookup(ra, id) is Some {
                let i = choose|i: int|
                    #![trigger ra[i]]
                    0 <= i < ra.len() && lookup(ra, id) == Some(ra[i]) && lookup(rb, id) == Some(
                        rb[i],
                    );
                assert(a[i + 1] == ra[i]);
            }
        }
    }
}

/// A status cache of some content answers with the tags and bonuses of the
/// content's status, and with none for an id that the content lacks.
pub proof fn law_status_cache_answers_content(
    cache: StatusTagCache,
    content: ContentView,
    id: Seq<char>,
)
    requires
        status_cache_of(cache, content.statuses@),
    ensures
        cache.spec_get(id) == (match content.status(id) {
            Some(d) => crate::classify::status_tags(d),
            None => Set::<StatusTag>::empty(),
        }),
        cache.spec_bonuses(id) == content.bonuses(id),
{
    same_keys_same_place(cache.entries@, content.statuses@, id);
}

/// An ability cache of some content answers with the tags of the content's
/// ability. Tag names that the content gives replace the derived tags; they are
/// not added to them.
pub proof fn law_override_replaces_derived(
    cache: AbilityTagCache,
    statuses: StatusTagCache,
    content: ContentView,
    id: Seq<char>,
)
    requires
        ability_cache_of(cache, content.abilities@, statuses, content.statuses@),
    ensures
        match content.ability(id) {
            Some(d) => {
                let derived = crate::classify::ability_tags(d, statuses, content.statuses@);
                &&& cache.spec_get(id) == derived
                &&& cache.spec_effective(id) == (match d.ai_tags_override {
                    Some(names) => named_tags(names@),
                    None => derived,
                })
            },
            None => cache.spec_get(id).is_empty() && cache.spec_effective(id).is_empty(),
        },
{
    same_keys_same_place(cache.entries@, content.abilities@, id);
}

/// Names of tags stand for exactly the tags that they name.
pub proof fn law_named_tags(names: Seq<String>, more: String, t: AbilityTag)
    ensures
        !named_tags(Seq::empty()).contains(t),
        named_tags(names.push(more)).contains(t) <==> named_tags(names).contains(t) || more@
            == t.text(),
        all_known(names.push(more)) <==> all_known(names) && AbilityTag::of_text(more@) is Some,
{
    let all = names.push(more);
    assert(all[names.len() as int] == more);
    if named_tags(names).contains(t) {
        let i = choose|i: int| 0 <= i < names.len() && #[trigger] names[i]@ == t.text();
        assert(all[i] == names[i]);
    }
    if named_tags(all).contains(t) {
        let i = choose|i: int| 0 <= i < all.len() && #[trigger] all[i]@ == t.text();
        if i < names.len() {
            assert(names[i] == all[i]);
        }
    }
    assert forall|i: int| 0 <= i < names.len() implies #[trigger] all[i] == names[i] by {}
    if all_known(all) {
        assert forall|i: int| 0 <= i < names.len() implies AbilityTag::of_text(
            (#[trigger] names[i])@,
        ) is Some by {
            assert(all[i] == names[i]);
        }
    }
}

} // verus!
