//! The registry of normalization profiles, as far as corridor validation
//! reads it: which risk coordinate each profile normalizes.
use vstd::prelude::*;
use vstd::hash_map::StringHashMap;

verus! {

/// What corridor validation reads of a normalization profile: its id and the
/// risk coordinate it normalizes.
#[derive(Debug, Clone)]
pub struct ProfileBinding {
    pub id: String,
    pub risk_coordinate: String,
}

/// Normalization profiles, keyed by id.
pub struct NormalizationRegistry {
    profiles: StringHashMap<ProfileBinding>,
}

impl View for NormalizationRegistry {
    type V = Map<Seq<char>, ProfileBinding>;

    closed spec fn view(&self) -> Self::V {
        self.profiles@
    }
}

/// The first coordinate, from position `k` on, whose profile is missing or
/// names no risk coordinate: its message.
pub open spec fn corridor_outcome(
    reg: Map<Seq<char>, ProfileBinding>,
    coords: Seq<(&str, &str)>,
    k: int,
) -> Option<Seq<char>>
    decreases coords.len() - k,
{
    if k < 0 || k >= coords.len() {
        None
    } else {
        let field = coords[k].0@;
        let norm_id = coords[k].1@;
        if !reg.contains_key(norm_id) {
            Some("Missing normalization profile "@ + norm_id)
        } else if reg[norm_id].risk_coordinate@.len() == 0 {
            Some("Field "@ + field + " bound to profile "@ + norm_id + " without risk_coordinate"@)
        } else {
            corridor_outcome(reg, coords, k + 1)
        }
    }
}

impl Default for NormalizationRegistry {
    fn default() -> (r: Self)
        ensures
            r@ == Map::<Seq<char>, ProfileBinding>::empty(),
    {
        NormalizationRegistry { profiles: StringHashMap::new() }
    }
}

impl NormalizationRegistry {
    /// Registers `profile` under its id, replacing what was registered there.
    pub fn register(&mut self, profile: ProfileBinding)
        ensures
            final(self)@ == old(self)@.insert(profile.id@, profile),
    {
        let id = profile.id.clone();
        self.profiles.insert(id, profile);
    }

    /// The profile registered under `id`.
    pub fn get(&self, id: &str) -> (r: Option<&ProfileBinding>)
        ensures
            match r {
                Some(p) => self@.contains_key(id@) && *p == self@[id@],
                None => !self@.contains_key(id@),
            },
    {
        self.profiles.get(id)
    }

    /// Checks corridor bindings `(field, normalization id)`, in order: each
    /// id must name a registered profile that has a risk coordinate.
    pub fn validate_corridor(&self, coords: &[(&str, &str)]) -> (r: Result<(), String>)
        ensures
            match r {
                Ok(_) => corridor_outcome(self@, coords@, 0) is None,
                Err(m) => corridor_outcome(self@, coords@, 0) == Some(m@),
            },
    {
        let mut k: usize = 0;
        while k < coords.len()
            invariant
                k <= coords@.len(),
                corridor_outcome(self@, coords@, 0) == corridor_outcome(self@, coords@, k as int),
            decreases coords.len() - k,
        {
            let (field, norm_id) = coords[k];
            let profile = match self.get(norm_id) {
                Some(p) => p,
                None => {
                    let mut m = String::from_str("Missing normalization profile ");
                    m.append(norm_id);
                    return Err(m);
                },
            };
            if profile.risk_coordinate.as_str().is_empty() {
                let mut m = String::from_str("Field ");
                m.append(field);
                m.append(" bound to profile ");
                m.append(norm_id);
                m.append(" without risk_coordinate");
                return Err(m);
            }
            k = k + 1;
        }
        Ok(())
    }
}

/// What a registry gives back for an id is what was last registered under it;
/// registering under one id leaves every other id's profile as it was.
pub proof fn law_register_then_get(reg: Map<Seq<char>, ProfileBinding>, p: ProfileBinding, id: Seq<char>)
    ensures
        reg.insert(p.id@, p).contains_key(p.id@) && reg.insert(p.id@, p)[p.id@] == p,
        id != p.id@ ==> (reg.insert(p.id@, p).contains_key(id) == reg.contains_key(id)
            && (reg.contains_key(id) ==> reg.insert(p.id@, p)[id] == reg[id])),
{
}

proof fn lemma_corridor_outcome(reg: Map<Seq<char>, ProfileBinding>, coords: Seq<(&str, &str)>, k: int)
    requires
        0 <= k,
    ensures
        corridor_outcome(reg, coords, k) is None <==> forall|i: int| k <= i < coords.len() ==> {
            &&& reg.contains_key((#[trigger] coords[i]).1@)
            &&& reg[coords[i].1@].risk_coordinate@.len() > 0
        },
    decreases coords.len() - k,
{
    if k < coords.len() {
        lemma_corridor_outcome(reg, coords, k + 1);
    }
}

/// Corridor bindings pass exactly when every binding `(field, id)`, first or
/// last, names a registered profile whose risk coordinate is not empty; a
/// failure names a binding that breaks this.
pub proof fn law_corridor_passes_exactly_when_bound(reg: Map<Seq<char>, ProfileBinding>, coords: Seq<(&str, &str)>)
    ensures
        corridor_outcome(reg, coords, 0) is None <==> forall|i: int| 0 <= i < coords.len() ==> {
            &&& reg.contains_key((#[trigger] coords[i]).1@)
            &&& reg[coords[i].1@].risk_coordinate@.len() > 0
        },
{
    lemma_corridor_outcome(reg, coords, 0);
}

} // verus!
