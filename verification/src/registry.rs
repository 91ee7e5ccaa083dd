use vstd::prelude::*;

use crate::chunk::ProbeError;
use crate::names::views;
use crate::text::str_eq;

verus! {

/// One registry-data packet as the configuration phase sends it: the registry's id and the keys
/// of its entries, in order.
pub struct DecodedRegistry {
    pub id: String,
    pub entries: Vec<String>,
}

/// One tag: its name and the numeric ids of the entries it holds.
pub struct DecodedTag {
    pub name: String,
    pub entries: Vec<i32>,
}

/// The tags of one registry.
pub struct DecodedTagGroup {
    pub registry: String,
    pub tags: Vec<DecodedTag>,
}

/// What the configuration phase must send: the registries in order, the registries that hold
/// exactly one given entry, those that must not be empty, and the timeline registry with its
/// single entry and the overworld tag that points at it.
pub struct RegistryContract {
    pub registry_ids: Vec<String>,
    pub one_entry: Vec<(String, String)>,
    pub non_empty_variant: Vec<String>,
    pub timeline_registry: String,
    pub timeline_entry: String,
    pub timeline_overworld_tag: String,
    pub timeline_overworld_entry_id: i32,
}

/// The ids of the registries, in the order they came.
pub open spec fn registry_ids(regs: Seq<DecodedRegistry>) -> Seq<Seq<char>> {
    regs.map_values(|r: DecodedRegistry| r.id@)
}

/// The registry ids of the tag groups, in the order they came.
pub open spec fn group_ids(groups: Seq<DecodedTagGroup>) -> Seq<Seq<char>> {
    groups.map_values(|g: DecodedTagGroup| g.registry@)
}

/// The entry keys of the first registry with the id `id`, if there is one.
pub open spec fn spec_registry_entries(regs: Seq<DecodedRegistry>, id: Seq<char>) -> Option<Seq<Seq<char>>>
    decreases regs.len(),
{
    if regs.len() == 0 {
        None
    } else if regs[0].id@ == id {
        Some(views(regs[0].entries@))
    } else {
        spec_registry_entries(regs.drop_first(), id)
    }
}

/// Checks the one-entry registries from position `i` on, stopping at the first that fails.
pub open spec fn one_entry_from(regs: Seq<DecodedRegistry>, pairs: Seq<(String, String)>, i: nat) -> Result<(), ProbeError>
    decreases pairs.len() - i,
{
    if i >= pairs.len() {
        Ok(())
    } else {
        match spec_registry_entries(regs, pairs[i as int].0@) {
            None => Err(ProbeError::Phase("missing registry")),
            Some(entries) => if entries != seq![pairs[i as int].1@] {
                Err(ProbeError::Phase("registry entry keys"))
            } else {
                one_entry_from(regs, pairs, i + 1)
            },
        }
    }
}

/// Checks the registries that must not be empty from position `i` on.
pub open spec fn non_empty_from(regs: Seq<DecodedRegistry>, ids: Seq<String>, i: nat) -> Result<(), ProbeError>
    decreases ids.len() - i,
{
    if i >= ids.len() {
        Ok(())
    } else {
        match spec_registry_entries(regs, ids[i as int]@) {
            None => Err(ProbeError::Phase("missing registry")),
            Some(entries) => if entries.len() == 0 {
                Err(ProbeError::Phase("empty variant registry"))
            } else {
                non_empty_from(regs, ids, i + 1)
            },
        }
    }
}

/// The registries match the contract: the ids in order, then the one-entry registries, then the
/// non-empty ones, then the timeline registry; the first check that fails names the error.
pub open spec fn spec_validate_registries(regs: Seq<DecodedRegistry>, c: RegistryContract) -> Result<(), ProbeError> {
    if registry_ids(regs) != views(c.registry_ids@) {
        Err(ProbeError::Phase("registry ids"))
    } else {
        match one_entry_from(regs, c.one_entry@, 0) {
            Err(e) => Err(e),
            Ok(_) => match non_empty_from(regs, c.non_empty_variant@, 0) {
                Err(e) => Err(e),
                Ok(_) => match spec_registry_entries(regs, c.timeline_registry@) {
                    None => Err(ProbeError::Phase("missing registry")),
                    Some(entries) => if entries != seq![c.timeline_entry@] {
                        Err(ProbeError::Phase("timeline registry"))
                    } else {
                        Ok(())
                    },
                },
            },
        }
    }
}

/// The first tag group of the registry `registry`, if there is one.
pub open spec fn first_group(groups: Seq<DecodedTagGroup>, registry: Seq<char>) -> Option<DecodedTagGroup>
    decreases groups.len(),
{
    if groups.len() == 0 {
        None
    } else if groups[0].registry@ == registry {
        Some(groups[0])
    } else {
        first_group(groups.drop_first(), registry)
    }
}

/// The first tag named `name`, if there is one.
pub open spec fn first_tag(tags: Seq<DecodedTag>, name: Seq<char>) -> Option<DecodedTag>
    decreases tags.len(),
{
    if tags.len() == 0 {
        None
    } else if tags[0].name@ == name {
        Some(tags[0])
    } else {
        first_tag(tags.drop_first(), name)
    }
}

/// The tag groups match the contract: one group per registry, in order, and a timeline group
/// whose overworld tag holds exactly the overworld entry.
pub open spec fn spec_validate_tags(groups: Seq<DecodedTagGroup>, c: RegistryContract) -> Result<(), ProbeError> {
    if group_ids(groups) != views(c.registry_ids@) {
        Err(ProbeError::Phase("tag registry ids"))
    } else {
        match first_group(groups, c.timeline_registry@) {
            None => Err(ProbeError::Phase("timeline tag group")),
            Some(group) => match first_tag(group.tags@, c.timeline_overworld_tag@) {
                None => Err(ProbeError::Phase("timeline overworld tag")),
                Some(tag) => if tag.entries@ != seq![c.timeline_overworld_entry_id] {
                    Err(ProbeError::Phase("timeline tag entries"))
                } else {
                    Ok(())
                },
            },
        }
    }
}

/// Whether two lists of strings hold the same texts in the same order.
fn same_texts(a: &Vec<String>, b: &Vec<String>) -> (r: bool)
    ensures
        r == (views(a@) == views(b@)),
{
    if a.len() != b.len() {
        proof {
            assert(views(a@).len() != views(b@).len());
        }
        return false;
    }
    let mut i: usize = 0;
    while i < a.len()
        invariant
            a.len() == b.len(),
            i <= a.len(),
            forall|j: int| 0 <= j < i ==> a@[j]@ == b@[j]@,
        decreases a.len() - i,
    {
        if !str_eq(a[i].as_str(), b[i].as_str()) {
            proof {
                assert(views(a@)[i as int] != views(b@)[i as int]);
            }
            return false;
        }
        i += 1;
    }
    proof {
        assert(views(a@) =~= views(b@));
    }
    true
}

/// Whether a list of strings holds exactly the one text `key`.
fn is_single(entries: &Vec<String>, key: &str) -> (r: bool)
    ensures
        r == (views(entries@) == seq![key@]),
{
    if entries.len() != 1 {
        proof {
            assert(views(entries@).len() != 1);
        }
        return false;
    }
    let same = str_eq(entries[0].as_str(), key);
    proof {
        if same {
            assert(views(entries@) =~= seq![key@]);
        } else {
            assert(views(entries@)[0] != seq![key@][0]);
        }
    }
    same
}

/// The entry keys of the first registry with the id `id`; an error when no registry has it.
pub fn registry_entries<'a>(registries: &'a Vec<DecodedRegistry>, id: &str) -> (r: Result<&'a Vec<String>, ProbeError>)
    ensures
        match spec_registry_entries(registries@, id@) {
            None => r == Err::<&Vec<String>, ProbeError>(ProbeError::Phase("missing registry")),
            Some(entries) => r matches Ok(v) && views(v@) == entries,
        },
{
    let mut i: usize = 0;
    proof {
        assert(registries@.skip(0) =~= registries@);
    }
    while i < registries.len()
        invariant
            i <= registries.len(),
            spec_registry_entries(registries@, id@) == spec_registry_entries(registries@.skip(i as int), id@),
        decreases registries.len() - i,
    {
        proof {
            assert(registries@.skip(i as int).drop_first() =~= registries@.skip(i + 1));
        }
        if str_eq(registries[i].id.as_str(), id) {
            return Ok(&registries[i].entries);
        }
        i += 1;
    }
    Err(ProbeError::Phase("missing registry"))
}

/// Checks the registry-data packets of the configuration phase against the contract.
pub fn validate_registries(registries: &Vec<DecodedRegistry>, contract: &RegistryContract) -> (r: Result<(), ProbeError>)
    ensures
        r == spec_validate_registries(registries@, *contract),
{
    let n = registries.len();
    if n != contract.registry_ids.len() {
        proof {
            assert(registry_ids(registries@).len() != views(contract.registry_ids@).len());
        }
        return Err(ProbeError::Phase("registry ids"));
    }
    let mut i: usize = 0;
    while i < n
        invariant
            n == registries@.len(),
            n == contract.registry_ids@.len(),
            i <= n,
            forall|j: int| 0 <= j < i ==> registries@[j].id@ == contract.registry_ids@[j]@,
        decreases n - i,
    {
        if !str_eq(registries[i].id.as_str(), contract.registry_ids[i].as_str()) {
            proof {
                assert(registry_ids(registries@)[i as int] != views(contract.registry_ids@)[i as int]);
            }
            return Err(ProbeError::Phase("registry ids"));
        }
        i += 1;
    }
    proof {
        assert(registry_ids(registries@) =~= views(contract.registry_ids@));
    }
    let mut k: usize = 0;
    while k < contract.one_entry.len()
        invariant
            k <= contract.one_entry@.len(),
            one_entry_from(registries@, contract.one_entry@, 0) == one_entry_from(registries@, contract.one_entry@, k as nat),
            registry_ids(registries@) == views(contract.registry_ids@),
        decreases contract.one_entry.len() - k,
    {
        let entries = registry_entries(registries, contract.one_entry[k].0.as_str())?;
        if !is_single(entries, contract.one_entry[k].1.as_str()) {
            return Err(ProbeError::Phase("registry entry keys"));
        }
        k += 1;
    }
    let mut m: usize = 0;
    while m < contract.non_empty_variant.len()
        invariant
            m <= contract.non_empty_variant@.len(),
            non_empty_from(registries@, contract.non_empty_variant@, 0) == non_empty_from(registries@, contract.non_empty_variant@, m as nat),
            registry_ids(registries@) == views(contract.registry_ids@),
            one_entry_from(registries@, contract.one_entry@, 0) == Ok::<(), ProbeError>(()),
        decreases contract.non_empty_variant.len() - m,
    {
        let entries = registry_entries(registries, contract.non_empty_variant[m].as_str())?;
        if entries.len() == 0 {
            return Err(ProbeError::Phase("empty variant registry"));
        }
        m += 1;
    }
    let timeline = registry_entries(registries, contract.timeline_registry.as_str())?;
    if !is_single(timeline, contract.timeline_entry.as_str()) {
        return Err(ProbeError::Phase("timeline registry"));
    }
    Ok(())
}

/// Checks the tags packet of the configuration phase against the contract.
pub fn validate_tags(tags: &Vec<DecodedTagGroup>, contract: &RegistryContract) -> (r: Result<(), ProbeError>)
    ensures
        r == spec_validate_tags(tags@, *contract),
{
    let n = tags.len();
    if n != contract.registry_ids.len() {
        proof {
            assert(group_ids(tags@).len() != views(contract.registry_ids@).len());
        }
        return Err(ProbeError::Phase("tag registry ids"));
    }
    let mut i: usize = 0;
    while i < n
        invariant
            n == tags@.len(),
            n == contract.registry_ids@.len(),
            i <= n,
            forall|j: int| 0 <= j < i ==> tags@[j].registry@ == contract.registry_ids@[j]@,
        decreases n - i,
    {
        if !str_eq(tags[i].registry.as_str(), contract.registry_ids[i].as_str()) {
            proof {
                assert(group_ids(tags@)[i as int] != views(contract.registry_ids@)[i as int]);
            }
            return Err(ProbeError::Phase("tag registry ids"));
        }
        i += 1;
    }
    proof {
        assert(group_ids(tags@) =~= views(contract.registry_ids@));
        assert(tags@.skip(0) =~= tags@);
    }
    let mut g: usize = 0;
    while g < n
        invariant
            n == tags@.len(),
            g <= n,
            first_group(tags@, contract.timeline_registry@) == first_group(tags@.skip(g as int), contract.timeline_registry@),
        ensures
            g <= n,
            first_group(tags@, contract.timeline_registry@) == first_group(tags@.skip(g as int), contract.timeline_registry@),
            g < n ==> tags@[g as int].registry@ == contract.timeline_registry@,
        decreases n - g,
    {
        proof {
            assert(tags@.skip(g as int).drop_first() =~= tags@.skip(g + 1));
        }
        if str_eq(tags[g].registry.as_str(), contract.timeline_registry.as_str()) {
            break;
        }
        g += 1;
    }
    if g == n {
        return Err(ProbeError::Phase("timeline tag group"));
    }
    let group = &tags[g];
    proof {
        assert(group.tags@.skip(0) =~= group.tags@);
    }
    let t_len = group.tags.len();
    let mut t: usize = 0;
    while t < t_len
        invariant
            t_len == group.tags@.len(),
            t <= t_len,
            first_tag(group.tags@, contract.timeline_overworld_tag@) == first_tag(group.tags@.skip(t as int), contract.timeline_overworld_tag@),
        ensures
            t <= t_len,
            first_tag(group.tags@, contract.timeline_overworld_tag@) == first_tag(group.tags@.skip(t as int), contract.timeline_overworld_tag@),
            t < t_len ==> group.tags@[t as int].name@ == contract.timeline_overworld_tag@,
        decreases t_len - t,
    {
        proof {
            assert(group.tags@.skip(t as int).drop_first() =~= group.tags@.skip(t + 1));
        }
        if str_eq(group.tags[t].name.as_str(), contract.timeline_overworld_tag.as_str()) {
            break;
        }
        t += 1;
    }
    if t == t_len {
        return Err(ProbeError::Phase("timeline overworld tag"));
    }
    let entries = &group.tags[t].entries;
    if entries.len() != 1 || entries[0] != contract.timeline_overworld_entry_id {
        proof {
            assert(entries@ != seq![contract.timeline_overworld_entry_id] || entries@.len() != 1);
        }
        return Err(ProbeError::Phase("timeline tag entries"));
    }
    proof {
        assert(entries@ =~= seq![contract.timeline_overworld_entry_id]);
    }
    Ok(())
}

} // verus!
