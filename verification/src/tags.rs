//! Semantic tags of abilities and statuses.
//!
//! A tag set is one byte. It is written as the list of its tags' names, in the
//! order of the tag's `iter`, and read back from such a list.

use crate::text::same_text;
use vstd::prelude::*;

verus! {

/// A name that is no tag's.
#[derive(Debug)]
pub struct UnknownTag {
    pub name: String,
}

/// The elements of `items` that are in `set`, in order.
pub open spec fn kept<T>(items: Seq<T>, set: Set<T>) -> Seq<T>
    decreases items.len(),
{
    if items.len() == 0 {
        Seq::empty()
    } else if set.contains(items.last()) {
        kept(items.drop_last(), set).push(items.last())
    } else {
        kept(items.drop_last(), set)
    }
}

/// What is kept is in both, everything that is in both is kept, and nothing is
/// kept twice that was not there twice.
proof fn kept_properties<T>(items: Seq<T>, set: Set<T>)
    ensures
        forall|t: T| #[trigger]
            kept(items, set).contains(t) <==> items.contains(t) && set.contains(t),
        items.no_duplicates() ==> kept(items, set).no_duplicates(),
    decreases items.len(),
{
    if items.len() > 0 {
        let rest = items.drop_last();
        let last = items.last();
        kept_properties(rest, set);
        let k = kept(rest, set);
        assert(items =~= rest.push(last));
        assert forall|t: T| #[trigger]
            kept(items, set).contains(t) <==> items.contains(t) && set.contains(t) by {
            push_contains(rest, last, t);
            push_contains(k, last, t);
            assert(k.contains(t) <==> rest.contains(t) && set.contains(t));
        }
        if items.no_duplicates() {
            assert(rest.no_duplicates());
            if k.contains(last) {
                assert(rest.contains(last));
                let i = choose|i: int| 0 <= i < rest.len() && rest[i] == last;
                assert(items[i] == items[items.len() - 1]);
                assert(false);
            }
        }
    }
}

proof fn push_contains<T>(s: Seq<T>, x: T, t: T)
    ensures
        s.push(x).contains(t) <==> s.contains(t) || t == x,
{
    if s.contains(t) {
        let i = choose|i: int| 0 <= i < s.len() && s[i] == t;
        assert(s.push(x)[i] == t);
    }
    if t == x {
        assert(s.push(x)[s.len() as int] == t);
    }
    if s.push(x).contains(t) {
        let i = choose|i: int| 0 <= i < s.push(x).len() && s.push(x)[i] == t;
        if i < s.len() {
            assert(s[i] == t);
        }
    }
}

proof fn push_to_set<T>(s: Seq<T>, x: T)
    ensures
        s.push(x).to_set() =~= s.to_set().insert(x),
{
    assert forall|t: T| s.push(x).to_set().contains(t) == s.to_set().insert(x).contains(t) by {
        push_contains(s, x, t);
    }
}

/// Setting one of eight single bits sets that bit and no other.
proof fn insert_bit(b: u8, x: u8, y: u8)
    requires
        x == 1 || x == 2 || x == 4 || x == 8 || x == 16 || x == 32 || x == 64 || x == 128,
        y == 1 || y == 2 || y == 4 || y == 8 || y == 16 || y == 32 || y == 64 || y == 128,
    ensures
        ((b | x) & y != 0) == (b & y != 0 || x == y),
{
    assert(((b | x) & y != 0) == (b & y != 0 || x == y)) by (bit_vector)
        requires
            x == 1 || x == 2 || x == 4 || x == 8 || x == 16 || x == 32 || x == 64 || x == 128,
            y == 1 || y == 2 || y == 4 || y == 8 || y == 16 || y == 32 || y == 64 || y == 128,
    ;
}

// ---------------------------------------------------------------------------
// Ability tags
// ---------------------------------------------------------------------------

/// What an ability is for.
#[derive(Clone, Copy, PartialEq, Eq, Structural, Debug, Hash)]
pub enum AbilityTag {
    Offensive,
    Defensive,
    Rescue,
    Summon,
    Mobility,
    ApplyCC,
    Peel,
}

impl AbilityTag {
    /// The name of the tag in content and logs.
    pub open spec fn text(self) -> Seq<char> {
        match self {
            AbilityTag::Offensive => "offensive"@,
            AbilityTag::Defensive => "defensive"@,
            AbilityTag::Rescue => "rescue"@,
            AbilityTag::Summon => "summon"@,
            AbilityTag::Mobility => "mobility"@,
            AbilityTag::ApplyCC => "apply_cc"@,
            AbilityTag::Peel => "peel"@,
        }
    }

    /// All tags, in the order in which they are written.
    pub open spec fn all() -> Seq<AbilityTag> {
        seq![
            AbilityTag::Offensive,
            AbilityTag::Defensive,
            AbilityTag::Rescue,
            AbilityTag::Summon,
            AbilityTag::Mobility,
            AbilityTag::ApplyCC,
            AbilityTag::Peel,
        ]
    }

    /// The tag of a name, where it names one.
    pub open spec fn of_text(name: Seq<char>) -> Option<AbilityTag> {
        if exists|t: AbilityTag| #[trigger] t.text() == name {
            Some(choose|t: AbilityTag| #[trigger] t.text() == name)
        } else {
            None
        }
    }

    /// Whether the name at `i` is the first that is no tag's.
    pub open spec fn first_unknown(names: Seq<String>, i: int) -> bool {
        &&& 0 <= i < names.len()
        &&& AbilityTag::of_text(names[i]@) is None
        &&& forall|j: int| 0 <= j < i ==> AbilityTag::of_text((#[trigger] names[j])@) is Some
    }

    /// The name of the tag in content and logs.
    pub fn name(self) -> (r: &'static str)
        ensures
            r@ == self.text(),
    {
        match self {
            AbilityTag::Offensive => "offensive",
            AbilityTag::Defensive => "defensive",
            AbilityTag::Rescue => "rescue",
            AbilityTag::Summon => "summon",
            AbilityTag::Mobility => "mobility",
            AbilityTag::ApplyCC => "apply_cc",
            AbilityTag::Peel => "peel",
        }
    }

    /// The tag of a name, where it names one.
    pub fn from_name(name: &str) -> (r: Option<AbilityTag>)
        ensures
            r == AbilityTag::of_text(name@),
    {
        let r = if same_text(name, "offensive") {
            Some(AbilityTag::Offensive)
        } else if same_text(name, "defensive") {
            Some(AbilityTag::Defensive)
        } else if same_text(name, "rescue") {
            Some(AbilityTag::Rescue)
        } else if same_text(name, "summon") {
            Some(AbilityTag::Summon)
        } else if same_text(name, "mobility") {
            Some(AbilityTag::Mobility)
        } else if same_text(name, "apply_cc") {
            Some(AbilityTag::ApplyCC)
        } else if same_text(name, "peel") {
            Some(AbilityTag::Peel)
        } else {
            None
        };
        proof {
            ability_tag_names_differ();
            if r is None {
                assert forall|t: AbilityTag| #[trigger] t.text() != name@ by {
                    match t {
                        AbilityTag::Offensive => {},
                        AbilityTag::Defensive => {},
                        AbilityTag::Rescue => {},
                        AbilityTag::Summon => {},
                        AbilityTag::Mobility => {},
                        AbilityTag::ApplyCC => {},
                        AbilityTag::Peel => {},
                    }
                }
            } else {
                assert((r->0).text() == name@);
            }
        }
        r
    }

    /// All tags, in the order in which they are written.
    pub fn iter() -> (r: Vec<AbilityTag>)
        ensures
            r@ == AbilityTag::all(),
    {
        let mut r: Vec<AbilityTag> = Vec::new();
        r.push(AbilityTag::Offensive);
        r.push(AbilityTag::Defensive);
        r.push(AbilityTag::Rescue);
        r.push(AbilityTag::Summon);
        r.push(AbilityTag::Mobility);
        r.push(AbilityTag::ApplyCC);
        r.push(AbilityTag::Peel);
        assert(r@ =~= AbilityTag::all());
        r
    }
}

/// Different tags have different names.
proof fn ability_tag_names_differ()
    ensures
        forall|a: AbilityTag, b: AbilityTag| #[trigger] a.text() == #[trigger] b.text() ==> a == b,
{
    reveal_strlit("offensive");
    reveal_strlit("defensive");
    reveal_strlit("rescue");
    reveal_strlit("summon");
    reveal_strlit("mobility");
    reveal_strlit("apply_cc");
    reveal_strlit("peel");
    assert forall|a: AbilityTag, b: AbilityTag| #[trigger] a.text() == #[trigger] b.text() implies a
        == b by {
        let x = a.text();
        let y = b.text();
        assert(x.len() == y.len());
        assert(x[0] == y[0]);
    }
}

/// A set of ability tags, one bit for each.
#[derive(Clone, Copy, PartialEq, Eq, Structural, Debug, Hash)]
pub struct AbilityTagSet {
    bits: u8,
}

impl View for AbilityTagSet {
    type V = Set<AbilityTag>;

    closed spec fn view(&self) -> Set<AbilityTag> {
        Set::new(|t: AbilityTag| self.bits & AbilityTagSet::bit(t) != 0)
    }
}

impl Default for AbilityTagSet {
    fn default() -> (r: AbilityTagSet)
        ensures
            r.wf(),
            r@ == Set::<AbilityTag>::empty(),
    {
        AbilityTagSet::empty()
    }
}

impl AbilityTagSet {
    /// Whether no bit is set but those of tags. Every set keeps this.
    #[verifier::type_invariant]
    pub closed spec fn wf(self) -> bool {
        self.bits & 128u8 == 0
    }

    /// The bit of a tag.
    pub open spec fn bit(t: AbilityTag) -> u8 {
        match t {
            AbilityTag::Offensive => 1u8,
            AbilityTag::Defensive => 2u8,
            AbilityTag::Rescue => 4u8,
            AbilityTag::Summon => 8u8,
            AbilityTag::Mobility => 16u8,
            AbilityTag::ApplyCC => 32u8,
            AbilityTag::Peel => 64u8,
        }
    }

    fn tag_bit(t: AbilityTag) -> (r: u8)
        ensures
            r == AbilityTagSet::bit(t),
    {
        match t {
            AbilityTag::Offensive => 1u8,
            AbilityTag::Defensive => 2u8,
            AbilityTag::Rescue => 4u8,
            AbilityTag::Summon => 8u8,
            AbilityTag::Mobility => 16u8,
            AbilityTag::ApplyCC => 32u8,
            AbilityTag::Peel => 64u8,
        }
    }

    /// The bits of the set: that of a tag is set exactly if the tag is in the set, and
    /// no other is.
    pub fn bits(self) -> (r: u8)
        ensures
            forall|t: AbilityTag| #[trigger] self@.contains(t) <==> r & AbilityTagSet::bit(t) != 0,
            r < 128,
    {
        let bits: u8 = self.bits;
        proof {
            use_type_invariant(self);
            assert(bits < 128) by (bit_vector)
                requires
                    bits & 128u8 == 0,
            ;
        }
        bits
    }

    /// The set without tags.
    pub fn empty() -> (r: AbilityTagSet)
        ensures
            r.wf(),
            r@ == Set::<AbilityTag>::empty(),
    {
        assert(forall|m: u8| #[trigger] (0u8 & m) == 0) by (bit_vector);
        let r = AbilityTagSet { bits: 0 };
        assert(r@ =~= Set::empty());
        r
    }

    /// Whether no tag is in the set.
    pub fn is_empty(self) -> (r: bool)
        ensures
            r == (self@ == Set::<AbilityTag>::empty()),
    {
        proof {
            use_type_invariant(self);
            assert(forall|m: u8| #[trigger] (0u8 & m) == 0) by (bit_vector);
            let none = AbilityTagSet { bits: 0 };
            assert(none@ =~= Set::empty());
            if self@ == none@ {
                ability_sets_are_their_tags(self, none);
            }
        }
        self.bits == 0
    }

    /// Whether a tag is in the set.
    pub fn contains_tag(self, t: AbilityTag) -> (r: bool)
        ensures
            r == self@.contains(t),
    {
        self.bits & AbilityTagSet::tag_bit(t) != 0
    }

    /// Adds a tag.
    pub fn insert_tag(&mut self, t: AbilityTag)
        ensures
            final(self).wf(),
            final(self)@ == old(self)@.insert(t),
    {
        proof {
            use_type_invariant(&*self);
        }
        let b: u8 = AbilityTagSet::tag_bit(t);
        let ghost before = self.bits;
        proof {
            assert((before | b) & 128u8 == 0) by (bit_vector)
                requires
                    before & 128u8 == 0,
                    b == 1 || b == 2 || b == 4 || b == 8 || b == 16 || b == 32 || b == 64,
            ;
        }
        self.bits = self.bits | b;
        proof {
            assert forall|u: AbilityTag| self@.contains(u) == (before & AbilityTagSet::bit(u) != 0 || u
                == t) by {
                insert_bit(before, b, AbilityTagSet::bit(u));
            }
        }
        assert(self@ =~= old(self)@.insert(t));
    }

    /// The set of the listed tags.
    pub fn from_iter_tags(tags: Vec<AbilityTag>) -> (r: AbilityTagSet)
        ensures
            r.wf(),
            r@ == tags@.to_set(),
    {
        let mut r = AbilityTagSet::empty();
        let mut i: usize = 0;
        while i < tags.len()
            invariant
                i <= tags.len(),
                r.wf(),
                r@ == tags@.take(i as int).to_set(),
            decreases tags.len() - i,
        {
            r.insert_tag(tags[i]);
            assert(tags@.take(i + 1) =~= tags@.take(i as int).push(tags[i as int]));
            assert(r@ =~= tags@.take(i + 1).to_set()) by {
                push_to_set(tags@.take(i as int), tags[i as int]);
            }
            i = i + 1;
        }
        assert(tags@.take(i as int) =~= tags@);
        r
    }

    /// The tags of the set, in the order in which they are written.
    pub fn iter_tags(self) -> (r: Vec<AbilityTag>)
        ensures
            r@ == self.listed(),
    {
        let all = AbilityTag::iter();
        let mut r: Vec<AbilityTag> = Vec::new();
        let mut i: usize = 0;
        while i < all.len()
            invariant
                i <= all.len(),
                all@ == AbilityTag::all(),
                r@ == kept(all@.take(i as int), self@),
            decreases all.len() - i,
        {
            assert(all@.take(i + 1).drop_last() =~= all@.take(i as int));
            if self.contains_tag(all[i]) {
                r.push(all[i]);
            }
            i = i + 1;
        }
        assert(all@.take(i as int) =~= all@);
        r
    }

    /// The tags of the set, in the order in which they are written.
    pub open spec fn listed(self) -> Seq<AbilityTag> {
        kept(AbilityTag::all(), self@)
    }

    /// Whether every tag of `other` is in the set.
    pub fn contains(self, other: AbilityTagSet) -> (r: bool)
        ensures
            r == other@.subset_of(self@),
    {
        let tags = other.iter_tags();
        proof {
            ability_listed_is_the_set(other);
        }
        let mut i: usize = 0;
        while i < tags.len()
            invariant
                i <= tags.len(),
                tags@.to_set() == other@,
                forall|j: int| 0 <= j < i ==> self@.contains(#[trigger] tags[j]),
            decreases tags.len() - i,
        {
            if !self.contains_tag(tags[i]) {
                assert(tags@.to_set().contains(tags[i as int]));
                return false;
            }
            i = i + 1;
        }
        assert forall|t: AbilityTag| #[trigger] other@.contains(t) implies self@.contains(t) by {
            assert(tags@.to_set().contains(t));
        }
        true
    }

    /// The names of the tags of the set, in the order in which they are
    /// written.
    pub fn to_names(self) -> (r: Vec<&'static str>)
        ensures
            r@.len() == self.listed().len(),
            forall|i: int| 0 <= i < r@.len() ==> (#[trigger] r@[i])@ == self.listed()[i].text(),
    {
        let tags = self.iter_tags();
        let mut r: Vec<&'static str> = Vec::new();
        let mut i: usize = 0;
        while i < tags.len()
            invariant
                i <= tags.len(),
                tags@ == self.listed(),
                r@.len() == i,
                forall|j: int| 0 <= j < i ==> (#[trigger] r@[j])@ == tags@[j].text(),
            decreases tags.len() - i,
        {
            r.push(tags[i].name());
            i = i + 1;
        }
        r
    }

    /// The set of the tags with the given names. The error carries the first
    /// name that is no tag's.
    pub fn from_names(names: &Vec<String>) -> (r: Result<AbilityTagSet, UnknownTag>)
        ensures
            match r {
                Ok(set) => {
                    &&& set.wf()
                    &&& forall|i: int|
                        0 <= i < names@.len() ==> AbilityTag::of_text((#[trigger] names@[i])@) is Some
                    &&& forall|t: AbilityTag| #[trigger]
                        set@.contains(t) <==> exists|i: int|
                            0 <= i < names@.len() && #[trigger] names@[i]@ == t.text()
                },
                Err(e) => exists|i: int| #[trigger]
                    AbilityTag::first_unknown(names@, i) && e.name@ == names@[i]@,
            },
    {
        let mut r = AbilityTagSet::empty();
        let mut i: usize = 0;
        while i < names.len()
            invariant
                i <= names.len(),
                r.wf(),
                forall|j: int|
                    0 <= j < i ==> AbilityTag::of_text((#[trigger] names@[j])@) is Some,
                forall|t: AbilityTag| #[trigger]
                    r@.contains(t) <==> exists|j: int|
                        0 <= j < i && #[trigger] names@[j]@ == t.text(),
            decreases names.len() - i,
        {
            match AbilityTag::from_name(names[i].as_str()) {
                Some(t) => {
                    proof {
                        ability_tag_names_differ();
                        assert(t.text() == names@[i as int]@);
                        assert forall|u: AbilityTag| #[trigger]
                            r@.insert(t).contains(u) <==> exists|j: int|
                                0 <= j < i + 1 && #[trigger] names@[j]@ == u.text() by {
                            if exists|j: int| 0 <= j < i + 1 && #[trigger] names@[j]@ == u.text() {
                                let j = choose|j: int|
                                    0 <= j < i + 1 && #[trigger] names@[j]@ == u.text();
                                if j < i {
                                    assert(r@.contains(u));
                                }
                            }
                            if r@.contains(u) {
                                let j = choose|j: int|
                                    0 <= j < i && #[trigger] names@[j]@ == u.text();
                                assert(names@[j]@ == u.text());
                            }
                        }
                    }
                    r.insert_tag(t);
                },
                None => {
                    proof {
                        assert(AbilityTag::first_unknown(names@, i as int));
                    }
                    return Err(UnknownTag { name: names[i].clone() });
                },
            }
            i = i + 1;
        }
        Ok(r)
    }
}

/// Two sets of the same tags are the same set.
pub proof fn ability_sets_are_their_tags(a: AbilityTagSet, b: AbilityTagSet)
    requires
        a.wf(),
        b.wf(),
        a@ == b@,
    ensures
        a == b,
{
    let x = a.bits;
    let y = b.bits;
    assert forall|t: AbilityTag| (x & AbilityTagSet::bit(t) != 0) == (y & AbilityTagSet::bit(t) != 0) by {
        assert(a@.contains(t) == (x & AbilityTagSet::bit(t) != 0));
        assert(b@.contains(t) == (y & AbilityTagSet::bit(t) != 0));
    }
    assert(AbilityTagSet::bit(AbilityTag::Offensive) == 1u8);
    assert(AbilityTagSet::bit(AbilityTag::Defensive) == 2u8);
    assert(AbilityTagSet::bit(AbilityTag::Rescue) == 4u8);
    assert(AbilityTagSet::bit(AbilityTag::Summon) == 8u8);
    assert(AbilityTagSet::bit(AbilityTag::Mobility) == 16u8);
    assert(AbilityTagSet::bit(AbilityTag::ApplyCC) == 32u8);
    assert(AbilityTagSet::bit(AbilityTag::Peel) == 64u8);
    assert(x == y) by (bit_vector)
        requires
            x & 128u8 == 0,
            y & 128u8 == 0,
            (x & 1u8 != 0) == (y & 1u8 != 0),
            (x & 2u8 != 0) == (y & 2u8 != 0),
            (x & 4u8 != 0) == (y & 4u8 != 0),
            (x & 8u8 != 0) == (y & 8u8 != 0),
            (x & 16u8 != 0) == (y & 16u8 != 0),
            (x & 32u8 != 0) == (y & 32u8 != 0),
            (x & 64u8 != 0) == (y & 64u8 != 0),
    ;
}

/// The list of a set's tags holds each of them once, and no other.
pub proof fn ability_listed_is_the_set(set: AbilityTagSet)
    ensures
        set.listed().to_set() == set@,
        set.listed().no_duplicates(),
{
    kept_properties(AbilityTag::all(), set@);
    assert(AbilityTag::all().no_duplicates());
    assert forall|t: AbilityTag| set@.contains(t) implies set.listed().contains(t) by {
        match t {
            AbilityTag::Offensive => {
                assert(AbilityTag::all()[0] == t);
            },
            AbilityTag::Defensive => {
                assert(AbilityTag::all()[1] == t);
            },
            AbilityTag::Rescue => {
                assert(AbilityTag::all()[2] == t);
            },
            AbilityTag::Summon => {
                assert(AbilityTag::all()[3] == t);
            },
            AbilityTag::Mobility => {
                assert(AbilityTag::all()[4] == t);
            },
            AbilityTag::ApplyCC => {
                assert(AbilityTag::all()[5] == t);
            },
            AbilityTag::Peel => {
                assert(AbilityTag::all()[6] == t);
            },
        }
    }
    assert(set.listed().to_set() =~= set@);
}

/// A tag is found again by its name.
pub proof fn law_ability_tag_name_round_trip(t: AbilityTag)
    ensures
        AbilityTag::of_text(t.text()) == Some(t),
{
    ability_tag_names_differ();
}

/// A name that is found is the name of the tag found, and no other name is.
pub proof fn law_ability_tag_of_text_is_exact(name: Seq<char>)
    ensures
        AbilityTag::of_text(name) matches Some(t) ==> t.text() == name,
        AbilityTag::of_text(name) is None ==> forall|t: AbilityTag| #[trigger] t.text() != name,
{
}

/// A set that is written as names and read back is the same set: any set whose
/// members are exactly the tags with the written names equals it.
pub proof fn law_ability_set_round_trip(set: AbilityTagSet, read: AbilityTagSet, names: Seq<Seq<char>>)
    requires
        set.wf(),
        read.wf(),
        names.len() == set.listed().len(),
        forall|i: int| 0 <= i < names.len() ==> #[trigger] names[i] == set.listed()[i].text(),
        forall|t: AbilityTag| #[trigger]
            read@.contains(t) <==> exists|i: int|
                0 <= i < names.len() && #[trigger] names[i] == t.text(),
    ensures
        read == set,
        forall|i: int| 0 <= i < names.len() ==> AbilityTag::of_text(#[trigger] names[i]) is Some,
{
    ability_tag_names_differ();
    ability_listed_is_the_set(set);
    assert forall|t: AbilityTag| read@.contains(t) == set@.contains(t) by {
        if set@.contains(t) {
            assert(set.listed().to_set().contains(t));
            let i = choose|i: int| 0 <= i < set.listed().len() && set.listed()[i] == t;
            assert(names[i] == t.text());
        }
        if read@.contains(t) {
            let i = choose|i: int| 0 <= i < names.len() && #[trigger] names[i] == t.text();
            assert(set.listed()[i] == t);
            assert(set.listed().to_set().contains(t));
        }
    }
    assert(read@ =~= set@);
    ability_sets_are_their_tags(read, set);
    assert forall|i: int| 0 <= i < names.len() implies AbilityTag::of_text(#[trigger] names[i]) is Some by {
        assert(set.listed()[i].text() == names[i]);
    }
}

// ---------------------------------------------------------------------------
// Status tags
// ---------------------------------------------------------------------------

/// What a status does to its bearer.
#[derive(Clone, Copy, PartialEq, Eq, Structural, Debug, Hash)]
pub enum StatusTag {
    HardCC,
    SoftCC,
    Dot,
    Buff,
    Compulsion,
    Cosmetic,
}

impl StatusTag {
    /// The name of the tag in content and logs.
    pub open spec fn text(self) -> Seq<char> {
        match self {
            StatusTag::HardCC => "hard_cc"@,
            StatusTag::SoftCC => "soft_cc"@,
            StatusTag::Dot => "dot"@,
            StatusTag::Buff => "buff"@,
            StatusTag::Compulsion => "compulsion"@,
            StatusTag::Cosmetic => "cosmetic"@,
        }
    }

    /// All tags, in the order in which they are written.
    pub open spec fn all() -> Seq<StatusTag> {
        seq![
            StatusTag::HardCC,
            StatusTag::SoftCC,
            StatusTag::Dot,
            StatusTag::Buff,
            StatusTag::Compulsion,
            StatusTag::Cosmetic,
        ]
    }

    /// The tag of a name, where it names one.
    pub open spec fn of_text(name: Seq<char>) -> Option<StatusTag> {
        if exists|t: StatusTag| #[trigger] t.text() == name {
            Some(choose|t: StatusTag| #[trigger] t.text() == name)
        } else {
            None
        }
    }

    /// Whether the name at `i` is the first that is no tag's.
    pub open spec fn first_unknown(names: Seq<String>, i: int) -> bool {
        &&& 0 <= i < names.len()
        &&& StatusTag::of_text(names[i]@) is None
        &&& forall|j: int| 0 <= j < i ==> StatusTag::of_text((#[trigger] names[j])@) is Some
    }

    /// The name of the tag in content and logs.
    pub fn name(self) -> (r: &'static str)
        ensures
            r@ == self.text(),
    {
        match self {
            StatusTag::HardCC => "hard_cc",
            StatusTag::SoftCC => "soft_cc",
            StatusTag::Dot => "dot",
            StatusTag::Buff => "buff",
            StatusTag::Compulsion => "compulsion",
            StatusTag::Cosmetic => "cosmetic",
        }
    }

    /// The tag of a name, where it names one.
    pub fn from_name(name: &str) -> (r: Option<StatusTag>)
        ensures
            r == StatusTag::of_text(name@),
    {
        let r = if same_text(name, "hard_cc") {
            Some(StatusTag::HardCC)
        } else if same_text(name, "soft_cc") {
            Some(StatusTag::SoftCC)
        } else if same_text(name, "dot") {
            Some(StatusTag::Dot)
        } else if same_text(name, "buff") {
            Some(StatusTag::Buff)
        } else if same_text(name, "compulsion") {
            Some(StatusTag::Compulsion)
        } else if same_text(name, "cosmetic") {
            Some(StatusTag::Cosmetic)
        } else {
            None
        };
        proof {
            status_tag_names_differ();
            if r is None {
                assert forall|t: StatusTag| #[trigger] t.text() != name@ by {
                    match t {
                        StatusTag::HardCC => {},
                        StatusTag::SoftCC => {},
                        StatusTag::Dot => {},
                        StatusTag::Buff => {},
                        StatusTag::Compulsion => {},
                        StatusTag::Cosmetic => {},
                    }
                }
            } else {
                assert((r->0).text() == name@);
            }
        }
        r
    }

    /// All tags, in the order in which they are written.
    pub fn iter() -> (r: Vec<StatusTag>)
        ensures
            r@ == StatusTag::all(),
    {
        let mut r: Vec<StatusTag> = Vec::new();
        r.push(StatusTag::HardCC);
        r.push(StatusTag::SoftCC);
        r.push(StatusTag::Dot);
        r.push(StatusTag::Buff);
        r.push(StatusTag::Compulsion);
        r.push(StatusTag::Cosmetic);
        assert(r@ =~= StatusTag::all());
        r
    }
}

/// Different tags have different names.
proof fn status_tag_names_differ()
    ensures
        forall|a: StatusTag, b: StatusTag| #[trigger] a.text() == #[trigger] b.text() ==> a == b,
{
    reveal_strlit("hard_cc");
    reveal_strlit("soft_cc");
    reveal_strlit("dot");
    reveal_strlit("buff");
    reveal_strlit("compulsion");
    reveal_strlit("cosmetic");
    assert forall|a: StatusTag, b: StatusTag| #[trigger] a.text() == #[trigger] b.text() implies a
        == b by {
        let x = a.text();
        let y = b.text();
        assert(x.len() == y.len());
        assert(x[0] == y[0]);
    }
}

/// A set of status tags, one bit for each.
#[derive(Clone, Copy, PartialEq, Eq, Structural, Debug, Hash)]
pub struct StatusTagSet {
    bits: u8,
}

impl View for StatusTagSet {
    type V = Set<StatusTag>;

    closed spec fn view(&self) -> Set<StatusTag> {
        Set::new(|t: StatusTag| self.bits & StatusTagSet::bit(t) != 0)
    }
}

impl Default for StatusTagSet {
    fn default() -> (r: StatusTagSet)
        ensures
            r.wf(),
            r@ == Set::<StatusTag>::empty(),
    {
        StatusTagSet::empty()
    }
}

impl StatusTagSet {
    /// Whether no bit is set but those of tags. Every set keeps this.
    #[verifier::type_invariant]
    pub closed spec fn wf(self) -> bool {
        self.bits & 192u8 == 0
    }

    /// The bit of a tag.
    pub open spec fn bit(t: StatusTag) -> u8 {
        match t {
            StatusTag::HardCC => 1u8,
            StatusTag::SoftCC => 2u8,
            StatusTag::Dot => 4u8,
            StatusTag::Buff => 8u8,
            StatusTag::Compulsion => 32u8,
            StatusTag::Cosmetic => 16u8,
        }
    }

    fn tag_bit(t: StatusTag) -> (r: u8)
        ensures
            r == StatusTagSet::bit(t),
    {
        match t {
            StatusTag::HardCC => 1u8,
            StatusTag::SoftCC => 2u8,
            StatusTag::Dot => 4u8,
            StatusTag::Buff => 8u8,
            StatusTag::Compulsion => 32u8,
            StatusTag::Cosmetic => 16u8,
        }
    }

    /// The bits of the set: that of a tag is set exactly if the tag is in the set, and
    /// no other is.
    pub fn bits(self) -> (r: u8)
        ensures
            forall|t: StatusTag| #[trigger] self@.contains(t) <==> r & StatusTagSet::bit(t) != 0,
            r < 64,
    {
        let bits: u8 = self.bits;
        proof {
            use_type_invariant(self);
            assert(bits < 64) by (bit_vector)
                requires
                    bits & 192u8 == 0,
            ;
        }
        bits
    }

    /// The set without tags.
    pub fn empty() -> (r: StatusTagSet)
        ensures
            r.wf(),
            r@ == Set::<StatusTag>::empty(),
    {
        assert(forall|m: u8| #[trigger] (0u8 & m) == 0) by (bit_vector);
        let r = StatusTagSet { bits: 0 };
        assert(r@ =~= Set::empty());
        r
    }

    /// Whether no tag is in the set.
    pub fn is_empty(self) -> (r: bool)
        ensures
            r == (self@ == Set::<StatusTag>::empty()),
    {
        proof {
            use_type_invariant(self);
            assert(forall|m: u8| #[trigger] (0u8 & m) == 0) by (bit_vector);
            let none = StatusTagSet { bits: 0 };
            assert(none@ =~= Set::empty());
            if self@ == none@ {
                status_sets_are_their_tags(self, none);
            }
        }
        self.bits == 0
    }

    /// Whether a tag is in the set.
    pub fn contains_tag(self, t: StatusTag) -> (r: bool)
        ensures
            r == self@.contains(t),
    {
        self.bits & StatusTagSet::tag_bit(t) != 0
    }

    /// Adds a tag.
    pub fn insert_tag(&mut self, t: StatusTag)
        ensures
            final(self).wf(),
            final(self)@ == old(self)@.insert(t),
    {
        proof {
            use_type_invariant(&*self);
        }
        let b: u8 = StatusTagSet::tag_bit(t);
        let ghost before = self.bits;
        proof {
            assert((before | b) & 192u8 == 0) by (bit_vector)
                requires
                    before & 192u8 == 0,
                    b == 1 || b == 2 || b == 4 || b == 8 || b == 32 || b == 16,
            ;
        }
        self.bits = self.bits | b;
        proof {
            assert forall|u: StatusTag| self@.contains(u) == (before & StatusTagSet::bit(u) != 0 || u
                == t) by {
                insert_bit(before, b, StatusTagSet::bit(u));
            }
        }
        assert(self@ =~= old(self)@.insert(t));
    }

    /// The set of the listed tags.
    pub fn from_iter_tags(tags: Vec<StatusTag>) -> (r: StatusTagSet)
        ensures
            r.wf(),
            r@ == tags@.to_set(),
    {
        let mut r = StatusTagSet::empty();
        let mut i: usize = 0;
        while i < tags.len()
            invariant
                i <= tags.len(),
                r.wf(),
                r@ == tags@.take(i as int).to_set(),
            decreases tags.len() - i,
        {
            r.insert_tag(tags[i]);
            assert(tags@.take(i + 1) =~= tags@.take(i as int).push(tags[i as int]));
            assert(r@ =~= tags@.take(i + 1).to_set()) by {
                push_to_set(tags@.take(i as int), tags[i as int]);
            }
            i = i + 1;
        }
        assert(tags@.take(i as int) =~= tags@);
        r
    }

    /// The tags of the set, in the order in which they are written.
    pub fn iter_tags(self) -> (r: Vec<StatusTag>)
        ensures
            r@ == self.listed(),
    {
        let all = StatusTag::iter();
        let mut r: Vec<StatusTag> = Vec::new();
        let mut i: usize = 0;
        while i < all.len()
            invariant
                i <= all.len(),
                all@ == StatusTag::all(),
                r@ == kept(all@.take(i as int), self@),
            decreases all.len() - i,
        {
            assert(all@.take(i + 1).drop_last() =~= all@.take(i as int));
            if self.contains_tag(all[i]) {
                r.push(all[i]);
            }
            i = i + 1;
        }
        assert(all@.take(i as int) =~= all@);
        r
    }

    /// The tags of the set, in the order in which they are written.
    pub open spec fn listed(self) -> Seq<StatusTag> {
        kept(StatusTag::all(), self@)
    }

    /// Whether every tag of `other` is in the set.
    pub fn contains(self, other: StatusTagSet) -> (r: bool)
        ensures
            r == other@.subset_of(self@),
    {
        let tags = other.iter_tags();
        proof {
            status_listed_is_the_set(other);
        }
        let mut i: usize = 0;
        while i < tags.len()
            invariant
                i <= tags.len(),
                tags@.to_set() == other@,
                forall|j: int| 0 <= j < i ==> self@.contains(#[trigger] tags[j]),
            decreases tags.len() - i,
        {
            if !self.contains_tag(tags[i]) {
                assert(tags@.to_set().contains(tags[i as int]));
                return false;
            }
            i = i + 1;
        }
        assert forall|t: StatusTag| #[trigger] other@.contains(t) implies self@.contains(t) by {
            assert(tags@.to_set().contains(t));
        }
        true
    }

    /// The names of the tags of the set, in the order in which they are
    /// written.
    pub fn to_names(self) -> (r: Vec<&'static str>)
        ensures
            r@.len() == self.listed().len(),
            forall|i: int| 0 <= i < r@.len() ==> (#[trigger] r@[i])@ == self.listed()[i].text(),
    {
        let tags = self.iter_tags();
        let mut r: Vec<&'static str> = Vec::new();
        let mut i: usize = 0;
        while i < tags.len()
            invariant
                i <= tags.len(),
                tags@ == self.listed(),
                r@.len() == i,
                forall|j: int| 0 <= j < i ==> (#[trigger] r@[j])@ == tags@[j].text(),
            decreases tags.len() - i,
        {
            r.push(tags[i].name());
            i = i + 1;
        }
        r
    }

    /// The set of the tags with the given names. The error carries the first
    /// name that is no tag's.
    pub fn from_names(names: &Vec<String>) -> (r: Result<StatusTagSet, UnknownTag>)
        ensures
            match r {
                Ok(set) => {
                    &&& set.wf()
                    &&& forall|i: int|
                        0 <= i < names@.len() ==> StatusTag::of_text((#[trigger] names@[i])@) is Some
                    &&& forall|t: StatusTag| #[trigger]
                        set@.contains(t) <==> exists|i: int|
                            0 <= i < names@.len() && #[trigger] names@[i]@ == t.text()
                },
                Err(e) => exists|i: int| #[trigger]
                    StatusTag::first_unknown(names@, i) && e.name@ == names@[i]@,
            },
    {
        let mut r = StatusTagSet::empty();
        let mut i: usize = 0;
        while i < names.len()
            invariant
                i <= names.len(),
                r.wf(),
                forall|j: int|
                    0 <= j < i ==> StatusTag::of_text((#[trigger] names@[j])@) is Some,
                forall|t: StatusTag| #[trigger]
                    r@.contains(t) <==> exists|j: int|
                        0 <= j < i && #[trigger] names@[j]@ == t.text(),
            decreases names.len() - i,
        {
            match StatusTag::from_name(names[i].as_str()) {
                Some(t) => {
                    proof {
                        status_tag_names_differ();
                        assert(t.text() == names@[i as int]@);
                        assert forall|u: StatusTag| #[trigger]
                            r@.insert(t).contains(u) <==> exists|j: int|
                                0 <= j < i + 1 && #[trigger] names@[j]@ == u.text() by {
                            if exists|j: int| 0 <= j < i + 1 && #[trigger] names@[j]@ == u.text() {
                                let j = choose|j: int|
                                    0 <= j < i + 1 && #[trigger] names@[j]@ == u.text();
                                if j < i {
                                    assert(r@.contains(u));
                                }
                            }
                            if r@.contains(u) {
                                let j = choose|j: int|
                                    0 <= j < i && #[trigger] names@[j]@ == u.text();
                                assert(names@[j]@ == u.text());
                            }
                        }
                    }
                    r.insert_tag(t);
                },
                None => {
                    proof {
                        assert(StatusTag::first_unknown(names@, i as int));
                    }
                    return Err(UnknownTag { name: names[i].clone() });
                },
            }
            i = i + 1;
        }
        Ok(r)
    }
}

/// Two sets of the same tags are the same set.
pub proof fn status_sets_are_their_tags(a: StatusTagSet, b: StatusTagSet)
    requires
        a.wf(),
        b.wf(),
        a@ == b@,
    ensures
        a == b,
{
    let x = a.bits;
    let y = b.bits;
    assert forall|t: StatusTag| (x & StatusTagSet::bit(t) != 0) == (y & StatusTagSet::bit(t) != 0) by {
        assert(a@.contains(t) == (x & StatusTagSet::bit(t) != 0));
        assert(b@.contains(t) == (y & StatusTagSet::bit(t) != 0));
    }
    assert(StatusTagSet::bit(StatusTag::HardCC) == 1u8);
    assert(StatusTagSet::bit(StatusTag::SoftCC) == 2u8);
    assert(StatusTagSet::bit(StatusTag::Dot) == 4u8);
    assert(StatusTagSet::bit(StatusTag::Buff) == 8u8);
    assert(StatusTagSet::bit(StatusTag::Compulsion) == 32u8);
    assert(StatusTagSet::bit(StatusTag::Cosmetic) == 16u8);
    assert(x == y) by (bit_vector)
        requires
            x & 192u8 == 0,
            y & 192u8 == 0,
            (x & 1u8 != 0) == (y & 1u8 != 0),
            (x & 2u8 != 0) == (y & 2u8 != 0),
            (x & 4u8 != 0) == (y & 4u8 != 0),
            (x & 8u8 != 0) == (y & 8u8 != 0),
            (x & 32u8 != 0) == (y & 32u8 != 0),
            (x & 16u8 != 0) == (y & 16u8 != 0),
    ;
}

/// The list of a set's tags holds each of them once, and no other.
pub proof fn status_listed_is_the_set(set: StatusTagSet)
    ensures
        set.listed().to_set() == set@,
        set.listed().no_duplicates(),
{
    kept_properties(StatusTag::all(), set@);
    assert(StatusTag::all().no_duplicates());
    assert forall|t: StatusTag| set@.contains(t) implies set.listed().contains(t) by {
        match t {
            StatusTag::HardCC => {
                assert(StatusTag::all()[0] == t);
            },
            StatusTag::SoftCC => {
                assert(StatusTag::all()[1] == t);
            },
            StatusTag::Dot => {
                assert(StatusTag::all()[2] == t);
            },
            StatusTag::Buff => {
                assert(StatusTag::all()[3] == t);
            },
            StatusTag::Compulsion => {
                assert(StatusTag::all()[4] == t);
            },
            StatusTag::Cosmetic => {
                assert(StatusTag::all()[5] == t);
            },
        }
    }
    assert(set.listed().to_set() =~= set@);
}

/// A tag is found again by its name.
pub proof fn law_status_tag_name_round_trip(t: StatusTag)
    ensures
        StatusTag::of_text(t.text()) == Some(t),
{
    status_tag_names_differ();
}

/// A name that is found is the name of the tag found, and no other name is.
pub proof fn law_status_tag_of_text_is_exact(name: Seq<char>)
    ensures
        StatusTag::of_text(name) matches Some(t) ==> t.text() == name,
        StatusTag::of_text(name) is None ==> forall|t: StatusTag| #[trigger] t.text() != name,
{
}

/// A set that is written as names and read back is the same set: any set whose
/// members are exactly the tags with the written names equals it.
pub proof fn law_status_set_round_trip(set: StatusTagSet, read: StatusTagSet, names: Seq<Seq<char>>)
    requires
        set.wf(),
        read.wf(),
        names.len() == set.listed().len(),
        forall|i: int| 0 <= i < names.len() ==> #[trigger] names[i] == set.listed()[i].text(),
        forall|t: StatusTag| #[trigger]
            read@.contains(t) <==> exists|i: int|
                0 <= i < names.len() && #[trigger] names[i] == t.text(),
    ensures
        read == set,
        forall|i: int| 0 <= i < names.len() ==> StatusTag::of_text(#[trigger] names[i]) is Some,
{
    status_tag_names_differ();
    status_listed_is_the_set(set);
    assert forall|t: StatusTag| read@.contains(t) == set@.contains(t) by {
        if set@.contains(t) {
            assert(set.listed().to_set().contains(t));
            let i = choose|i: int| 0 <= i < set.listed().len() && set.listed()[i] == t;
            assert(names[i] == t.text());
        }
        if read@.contains(t) {
            let i = choose|i: int| 0 <= i < names.len() && #[trigger] names[i] == t.text();
            assert(set.listed()[i] == t);
            assert(set.listed().to_set().contains(t));
        }
    }
    assert(read@ =~= set@);
    status_sets_are_their_tags(read, set);
    assert forall|i: int| 0 <= i < names.len() implies StatusTag::of_text(#[trigger] names[i]) is Some by {
        assert(set.listed()[i].text() == names[i]);
    }
}

} // verus!
