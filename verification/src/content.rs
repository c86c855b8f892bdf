//! Static content: abilities, statuses and the numbers they are made of.

use vstd::prelude::*;

verus! {

/// What an ability is aimed at.
#[derive(Clone, Copy, PartialEq, Eq, Structural, Debug)]
pub enum TargetType {
    SingleEnemy,
    SingleAlly,
    Myself,
    Ground,
}

/// Who receives a status that an ability applies.
#[derive(Clone, Copy, PartialEq, Eq, Structural, Debug)]
pub enum StatusOn {
    Target,
    MySelf,
}

/// Shape of the area that an ability touches.
#[derive(Clone, Copy, PartialEq, Eq, Structural, Debug)]
pub enum AoEShape {
    /// No area: only the declared target is touched.
    Single,
    Circle { radius: u32 },
    Line { length: u32 },
}

/// Pools that an ability can be paid from.
#[derive(Clone, Copy, PartialEq, Eq, Structural, Debug)]
pub enum ResourceKind {
    Hp,
    Mana,
    Rage,
    Energy,
}

#[derive(Clone, Copy, PartialEq, Eq, Structural, Debug)]
pub struct ResourceCost {
    pub resource: ResourceKind,
    pub amount: i32,
}

/// `count` dice of `sides` sides, plus `bonus`.
#[derive(Clone, Copy, PartialEq, Eq, Structural, Debug)]
pub struct DiceExpr {
    pub count: u32,
    pub sides: u32,
    pub bonus: i32,
}

/// Distances at which an ability can be used; a `max` of zero is unlimited.
#[derive(Clone, Copy, PartialEq, Eq, Structural, Debug)]
pub struct AbilityRange {
    pub min: u32,
    pub max: u32,
}

/// Direct effect of an ability.
#[derive(Debug)]
pub enum EffectDef {
    /// No direct effect: the ability only applies statuses.
    StatusOnly,
    WeaponAttack { ranged: bool },
    Damage { dice: DiceExpr },
    SpellDamage { dice: DiceExpr },
    Heal { dice: DiceExpr },
    GrantMovement { distance: i32 },
    RestoreResources,
    Summon { template_id: String, max_active: Option<u32> },
}

/// A status that an ability applies.
#[derive(Debug)]
pub struct StatusApplication {
    pub status: String,
    pub on: StatusOn,
    pub duration_rounds: u32,
}

#[derive(Debug)]
pub struct AbilityDef {
    pub id: String,
    pub name: String,
    pub target_type: TargetType,
    pub range: AbilityRange,
    pub effect: EffectDef,
    pub costs: Vec<ResourceCost>,
    pub cost_ap: i32,
    pub aoe: AoEShape,
    pub friendly_fire: bool,
    pub statuses: Vec<StatusApplication>,
    /// Name of the key that selects the ability, where it has one.
    pub key: Option<String>,
    /// Whether selecting the ability only switches between moving and casting.
    pub is_move_toggle: bool,
    /// Whether the ability fires by itself at the start of a turn.
    pub passive: bool,
    /// Tag names that replace the derived ones.
    pub ai_tags_override: Option<Vec<String>>,
}

/// Numbers that a status adds to its bearer while it lasts.
#[derive(Clone, Copy, PartialEq, Eq, Structural, Debug)]
pub struct StatusBonuses {
    pub speed_bonus: i32,
    pub armor_bonus: i32,
    pub damage_taken_bonus: i32,
}

impl StatusBonuses {
    /// No bonus at all.
    pub open spec fn zero() -> StatusBonuses {
        StatusBonuses { speed_bonus: 0, armor_bonus: 0, damage_taken_bonus: 0 }
    }
}

impl Default for StatusBonuses {
    fn default() -> (r: StatusBonuses)
        ensures
            r == StatusBonuses::zero(),
    {
        StatusBonuses { speed_bonus: 0, armor_bonus: 0, damage_taken_bonus: 0 }
    }
}

#[derive(Debug)]
pub struct StatusDef {
    pub id: String,
    pub name: String,
    pub skips_turn: bool,
    pub causes_disadvantage: bool,
    /// Whether its bearer cannot use abilities that cost mana.
    pub blocks_mana_abilities: bool,
    /// Whether attacks must go to its bearer.
    pub forces_targeting: bool,
    pub bonuses: StatusBonuses,
    pub dot_dice: Option<DiceExpr>,
    pub hp_percent_dot: i32,
    pub buff_class: Option<String>,
}

/// Things that are looked up by the text of their id.
pub trait Keyed {
    /// The text of the id.
    spec fn key(&self) -> Seq<char>;

    /// Whether the id is `id`.
    fn has_key(&self, id: &String) -> (r: bool)
        ensures
            r == (self.key() == id@),
    ;
}

impl Keyed for AbilityDef {
    open spec fn key(&self) -> Seq<char> {
        self.id@
    }

    fn has_key(&self, id: &String) -> (r: bool) {
        self.id == *id
    }
}

impl Keyed for StatusDef {
    open spec fn key(&self) -> Seq<char> {
        self.id@
    }

    fn has_key(&self, id: &String) -> (r: bool) {
        self.id == *id
    }
}

/// The first entry with the given id.
pub open spec fn lookup<T: Keyed>(items: Seq<T>, id: Seq<char>) -> Option<T>
    decreases items.len(),
{
    if items.len() == 0 {
        None
    } else if items[0].key() == id {
        Some(items[0])
    } else {
        lookup(items.drop_first(), id)
    }
}

/// Finds the first entry with the given id.
pub fn find<'a, T: Keyed>(items: &'a Vec<T>, id: &String) -> (r: Option<&'a T>)
    ensures
        match r {
            Some(t) => lookup(items@, id@) == Some(*t),
            None => lookup(items@, id@) is None,
        },
{
    let mut i: usize = 0;
    assert(items@.skip(0) =~= items@);
    while i < items.len()
        invariant
            i <= items.len(),
            lookup(items@, id@) == lookup(items@.skip(i as int), id@),
        decreases items.len() - i,
    {
        assert(items@.skip(i as int).drop_first() =~= items@.skip(i + 1));
        if items[i].has_key(id) {
            return Some(&items[i]);
        }
        i = i + 1;
    }
    None
}

/// Whether the entry at `i` is the first with an id.
pub open spec fn is_first_entry<T: Keyed>(items: Seq<T>, id: Seq<char>, i: int) -> bool {
    &&& 0 <= i < items.len()
    &&& items[i].key() == id
    &&& forall|j: int| 0 <= j < i ==> (#[trigger] items[j]).key() != id
}

/// A looked-up entry is the first with its id; without one there is none with it.
pub proof fn law_lookup_finds_the_first<T: Keyed>(items: Seq<T>, id: Seq<char>)
    ensures
        lookup(items, id) matches Some(t) ==> exists|i: int|
            #[trigger] is_first_entry(items, id, i) && items[i] == t,
        lookup(items, id) is None ==> forall|i: int|
            0 <= i < items.len() ==> (#[trigger] items[i]).key() != id,
    decreases items.len(),
{
    if items.len() > 0 {
        if items[0].key() == id {
            assert(is_first_entry(items, id, 0));
        } else {
            let rest = items.drop_first();
            law_lookup_finds_the_first(rest, id);
            if let Some(t) = lookup(rest, id) {
                let j = choose|j: int| #[trigger] is_first_entry(rest, id, j) && rest[j] == t;
                assert forall|k: int| 0 <= k < j + 1 implies (#[trigger] items[k]).key() != id by {
                    if k > 0 {
                        assert(rest[k - 1] == items[k]);
                    }
                }
                assert(is_first_entry(items, id, j + 1));
            } else {
                assert forall|i: int| 0 <= i < items.len() implies (#[trigger] items[i]).key()
                    != id by {
                    if i > 0 {
                        assert(rest[i - 1] == items[i]);
                    }
                }
            }
        }
    }
}

/// All abilities and statuses of a scenario.
#[derive(Debug)]
pub struct ContentView {
    pub abilities: Vec<AbilityDef>,
    pub statuses: Vec<StatusDef>,
}

impl ContentView {
    /// The ability with the given id.
    pub open spec fn ability(&self, id: Seq<char>) -> Option<AbilityDef> {
        lookup(self.abilities@, id)
    }

    /// The status with the given id.
    pub open spec fn status(&self, id: Seq<char>) -> Option<StatusDef> {
        lookup(self.statuses@, id)
    }

    /// The ability with the given id.
    pub fn ability_def(&self, id: &String) -> (r: Option<&AbilityDef>)
        ensures
            match r {
                Some(d) => self.ability(id@) == Some(*d),
                None => self.ability(id@) is None,
            },
    {
        find(&self.abilities, id)
    }

    /// The status with the given id.
    pub fn status_def(&self, id: &String) -> (r: Option<&StatusDef>)
        ensures
            match r {
                Some(d) => self.status(id@) == Some(*d),
                None => self.status(id@) is None,
            },
    {
        find(&self.statuses, id)
    }

    /// The bonuses of the status with the given id; zero where there is none.
    pub open spec fn bonuses(&self, id: Seq<char>) -> StatusBonuses {
        match self.status(id) {
            Some(d) => d.bonuses,
            None => StatusBonuses::zero(),
        }
    }

    /// The bonuses of the status with the given id; zero where there is none.
    pub fn status_bonuses(&self, id: &String) -> (r: StatusBonuses)
        ensures
            r == self.bonuses(id@),
    {
        match self.status_def(id) {
            Some(d) => d.bonuses,
            None => StatusBonuses::default(),
        }
    }
}

/// A status that is not known gives no bonus, a known one those of its definition.
pub proof fn law_bonuses(content: ContentView, id: Seq<char>)
    ensures
        content.status(id) matches Some(d) ==> content.bonuses(id) == d.bonuses,
        content.status(id) is None ==> content.bonuses(id).armor_bonus == 0 && content.bonuses(
            id,
        ).speed_bonus == 0 && content.bonuses(id).damage_taken_bonus == 0,
{
}

/// What is listed is found under its own id.
pub proof fn law_listed_is_found<T: Keyed>(items: Seq<T>, k: int)
    requires
        0 <= k < items.len(),
        forall|j: int| 0 <= j < k ==> (#[trigger] items[j]).key() != items[k].key(),
    ensures
        lookup(items, items[k].key()) == Some(items[k]),
    decreases items.len(),
{
    if k > 0 {
        assert(items[0].key() != items[k].key());
        let rest = items.drop_first();
        assert forall|j: int| 0 <= j < k - 1 implies (#[trigger] rest[j]).key()
            != rest[k - 1].key() by {
            assert(items[j + 1].key() != items[k].key());
        }
        law_listed_is_found(rest, k - 1);
    }
}

} // verus!
