//! Saved connection profiles, one of which may be active.

use vstd::prelude::*;
use vstd::string::StringExecFns;

verus! {

/// How to reach a relay, and the server that it runs on.
#[derive(Debug, Clone)]
pub struct Profile {
    pub name: String,
    pub relay_addr: String,
    pub key_hex: String,
    pub vps_host: Option<String>,
    pub ssh_port: Option<u16>,
    pub ssh_user: Option<String>,
}

/// The saved profiles, and the name of the active one.
pub struct ProfileStore {
    pub profiles: Vec<Profile>,
    pub active: Option<String>,
}

/// Where the first profile of a name is in a list; behind its end if there is
/// none.
pub open spec fn position(profiles: Seq<Profile>, name: Seq<char>) -> int
    decreases profiles.len(),
{
    if profiles.len() == 0 {
        0
    } else if profiles[0].name@ == name {
        0
    } else {
        1 + position(profiles.skip(1), name)
    }
}

/// Whether a profile of a name is in a list.
pub open spec fn is_saved(profiles: Seq<Profile>, name: Seq<char>) -> bool {
    exists|i: int| 0 <= i < profiles.len() && (#[trigger] profiles[i]).name@ == name
}

/// A list with a profile saved: in place of the first of its name, or behind the
/// others.
pub open spec fn with_profile(profiles: Seq<Profile>, profile: Profile) -> Seq<Profile> {
    if is_saved(profiles, profile.name@) {
        profiles.update(position(profiles, profile.name@), profile)
    } else {
        profiles.push(profile)
    }
}

/// Tells the profiles of other names.
pub open spec fn not_named(name: Seq<char>) -> spec_fn(Profile) -> bool {
    |p: Profile| p.name@ != name
}

/// A list without the profiles of a name.
pub open spec fn without_profile(profiles: Seq<Profile>, name: Seq<char>) -> Seq<Profile> {
    profiles.filter(not_named(name))
}

/// Whether no name occurs twice, and the active profile, if there is one, is
/// saved.
pub open spec fn is_consistent(store: ProfileStore) -> bool {
    &&& forall|i: int, j: int|
        0 <= i < j < store.profiles@.len() ==> (#[trigger] store.profiles@[i]).name@ != (
        #[trigger] store.profiles@[j]).name@
    &&& store.active matches Some(name) ==> is_saved(store.profiles@, name@)
}

/// The name of the active profile.
pub open spec fn active_name(store: ProfileStore) -> Option<Seq<char>> {
    match store.active {
        Some(name) => Some(name@),
        None => None,
    }
}

proof fn lemma_position(profiles: Seq<Profile>, name: Seq<char>)
    ensures
        0 <= position(profiles, name) <= profiles.len(),
        is_saved(profiles, name) <==> position(profiles, name) < profiles.len(),
        position(profiles, name) < profiles.len() ==> profiles[position(profiles, name)].name@
            == name,
        forall|i: int|
            0 <= i < position(profiles, name) ==> (#[trigger] profiles[i]).name@ != name,
    decreases profiles.len(),
{
    if profiles.len() > 0 {
        let rest = profiles.skip(1);
        lemma_position(rest, name);
        if profiles[0].name@ != name {
            assert forall|i: int| 0 <= i < position(profiles, name) implies (
            #[trigger] profiles[i]).name@ != name by {
                if i > 0 {
                    assert(rest[i - 1] == profiles[i]);
                }
            }
            if is_saved(profiles, name) {
                let i = choose|i: int|
                    0 <= i < profiles.len() && (#[trigger] profiles[i]).name@ == name;
                assert(rest[i - 1].name@ == name);
            }
        }
    }
}

impl ProfileStore {
    /// A store without profiles.
    pub fn new() -> (store: Self)
        ensures
            store.profiles@ == Seq::<Profile>::empty(),
            store.active is None,
            is_consistent(store),
    {
        ProfileStore { profiles: Vec::new(), active: None }
    }

    fn find(&self, name: &String) -> (i: usize)
        ensures
            i == position(self.profiles@, name@),
            i <= self.profiles@.len(),
            (i < self.profiles@.len()) == is_saved(self.profiles@, name@),
    {
        proof {
            lemma_position(self.profiles@, name@);
        }
        let mut i: usize = 0;
        while i < self.profiles.len()
            invariant
                0 <= i <= self.profiles@.len(),
                i <= position(self.profiles@, name@) <= self.profiles@.len(),
                position(self.profiles@, name@) < self.profiles@.len() ==> self.profiles@[position(
                    self.profiles@,
                    name@,
                )].name@ == name@,
                forall|j: int|
                    0 <= j < position(self.profiles@, name@) ==> (
                    #[trigger] self.profiles@[j]).name@ != name@,
                is_saved(self.profiles@, name@) <==> position(self.profiles@, name@)
                    < self.profiles@.len(),
            decreases self.profiles@.len() - i,
        {
            if self.profiles[i].name == *name {
                return i;
            }
            i = i + 1;
        }
        i
    }

}

/// Saves a profile, in place of the one of its name.
pub fn save_profile(store: &mut ProfileStore, profile: Profile)
    ensures
        final(store).profiles@ == with_profile(old(store).profiles@, profile),
        final(store).active == old(store).active,
        is_consistent(*old(store)) ==> is_consistent(*final(store)),
        is_saved(final(store).profiles@, profile.name@),
        forall|k: int|
            0 <= k < old(store).profiles@.len() && (#[trigger] old(store).profiles@[k]).name@
                != profile.name@ ==> final(store).profiles@[k] == old(store).profiles@[k],
{
    let i: usize = store.find(&profile.name);
    proof {
        lemma_position(store.profiles@, profile.name@);
    }
    let ghost before = store.profiles@;
    if i < store.profiles.len() {
        store.profiles.set(i, profile);
    } else {
        store.profiles.push(profile);
    }
    proof {
        assert(store.profiles@ =~= with_profile(before, profile));
        assert(store.profiles@[i as int].name@ == profile.name@);
        if is_consistent(*old(store)) {
            assert(before[i as int].name@ == profile.name@ || i == before.len());
            if let Some(name) = &store.active {
                let k = choose|k: int|
                    0 <= k < before.len() && (#[trigger] before[k]).name@ == name@;
                assert(store.profiles@[k].name@ == name@);
            }
        }
    }
}

/// Deletes the profiles of a name. If one of them was active, none is.
pub fn delete_profile(store: &mut ProfileStore, name: String)
    ensures
        final(store).profiles@ == without_profile(old(store).profiles@, name@),
        active_name(*final(store)) == if active_name(*old(store)) == Some(name@) {
            None
        } else {
            active_name(*old(store))
        },
        is_consistent(*old(store)) ==> is_consistent(*final(store)),
        !is_saved(final(store).profiles@, name@),
        forall|k: int|
            0 <= k < old(store).profiles@.len() && (#[trigger] old(store).profiles@[k]).name@
                != name@ ==> final(store).profiles@.contains(old(store).profiles@[k]),
        active_name(*final(store)) != Some(name@),
        active_name(*old(store)) != Some(name@) ==> active_name(*final(store)) == active_name(
            *old(store),
        ),
{
    let ghost before = store.profiles@;
    let ghost keep = not_named(name@);
    let ghost mut done: int = 0;
    let mut i: usize = 0;
    proof {
        reveal(Seq::filter);
        assert(before.take(0).filter(keep) =~= Seq::<Profile>::empty());
        assert(store.profiles@ =~= before.take(0).filter(keep) + before.skip(0));
    }
    while i < store.profiles.len()
        invariant
            0 <= done <= before.len(),
            keep == not_named(name@),
            i == before.take(done).filter(keep).len(),
            store.profiles@ == before.take(done).filter(keep) + before.skip(done),
            store.active == old(store).active,
            before == old(store).profiles@,
        decreases before.len() - done,
    {
        let ghost upto = before.take(done + 1);
        proof {
            assert(store.profiles@.len() == i + before.len() - done);
            assert(store.profiles@[i as int] == before[done]);
            assert(upto.drop_last() =~= before.take(done));
            assert(upto.last() == before[done]);
            reveal(Seq::filter);
        }
        if store.profiles[i].name == name {
            store.profiles.remove(i);
            assert(store.profiles@ =~= upto.filter(keep) + before.skip(done + 1));
        } else {
            i = i + 1;
            assert(store.profiles@ =~= upto.filter(keep) + before.skip(done + 1));
        }
        proof {
            done = done + 1;
        }
    }
    proof {
        assert(store.profiles@.len() == i + before.len() - done);
        assert(before.take(done) =~= before);
        assert(store.profiles@ =~= before.filter(keep));
    }
    let was_active: bool = match &store.active {
        Some(active) => *active == name,
        None => false,
    };
    if was_active {
        store.active = None;
    }
    proof {
        lemma_deleted_is_gone(before, name@);
        if is_consistent(*old(store)) {
            lemma_filter_keeps_order(before, name@);
            if let Some(active) = &store.active {
                let k = choose|k: int|
                    0 <= k < before.len() && (#[trigger] before[k]).name@ == active@;
                assert(keep(before[k]));
                before.lemma_filter_contains(keep, k);
                let m = store.profiles@.index_of(before[k]);
                assert(store.profiles@[m].name@ == active@);
            }
        }
    }
}

/// Makes a profile the active one, if it is saved.
pub fn set_active_profile(store: &mut ProfileStore, name: String) -> (r: Result<(), String>)
    ensures
        final(store).profiles == old(store).profiles,
        match r {
            Ok(()) => {
                &&& is_saved(old(store).profiles@, name@)
                &&& active_name(*final(store)) == Some(name@)
            },
            Err(text) => {
                &&& !is_saved(old(store).profiles@, name@)
                &&& final(store).active == old(store).active
                &&& text@ == "Profile '"@ + name@ + "' not found"@
            },
        },
        is_consistent(*old(store)) ==> is_consistent(*final(store)),
{
    if store.find(&name) == store.profiles.len() {
        let mut text = "Profile '".to_owned();
        text.append(name.as_str());
        text.append("' not found");
        return Err(text);
    }
    store.active = Some(name);
    Ok(())
}

/// The saved profiles, and the name of the active one.
pub fn load_profiles(store: ProfileStore) -> (r: (Vec<Profile>, Option<String>))
    ensures
        r.0 == store.profiles,
        r.1 == store.active,
{
    (store.profiles, store.active)
}

/// Of profiles whose names differ, those without one name have names that
/// differ.
proof fn lemma_filter_keeps_order(profiles: Seq<Profile>, name: Seq<char>)
    requires
        forall|i: int, j: int|
            0 <= i < j < profiles.len() ==> (#[trigger] profiles[i]).name@ != (
            #[trigger] profiles[j]).name@,
    ensures
        ({
            let kept = without_profile(profiles, name);
            &&& forall|i: int, j: int|
                0 <= i < j < kept.len() ==> (#[trigger] kept[i]).name@ != (
                #[trigger] kept[j]).name@
            &&& forall|i: int|
                0 <= i < kept.len() ==> exists|k: int|
                    0 <= k < profiles.len() && #[trigger] profiles[k] == #[trigger] kept[i]
        }),
    decreases profiles.len(),
{
    reveal(Seq::filter);
    let kept = without_profile(profiles, name);
    if profiles.len() > 0 {
        let init = profiles.drop_last();
        let n = profiles.len() - 1;
        lemma_filter_keeps_order(init, name);
        let before = without_profile(init, name);
        assert forall|i: int| 0 <= i < kept.len() implies exists|k: int|
            0 <= k < profiles.len() && #[trigger] profiles[k] == #[trigger] kept[i] by {
            if i < before.len() {
                let k = choose|k: int|
                    0 <= k < init.len() && #[trigger] init[k] == #[trigger] before[i];
                assert(profiles[k] == kept[i]);
            } else {
                assert(profiles[n] == kept[i]);
            }
        }
        assert forall|i: int, j: int| 0 <= i < j < kept.len() implies (#[trigger] kept[i]).name@ != (
        #[trigger] kept[j]).name@ by {
            if j < before.len() {
                assert(before[i].name@ != before[j].name@);
            } else {
                let k = choose|k: int|
                    0 <= k < init.len() && #[trigger] init[k] == #[trigger] before[i];
                assert(profiles[k].name@ != profiles[n].name@);
            }
        }
    }
}

/// A profile that was just saved is the one found under its name, and saving it
/// again changes nothing.
pub proof fn lemma_saved_is_found(profiles: Seq<Profile>, profile: Profile)
    ensures
        ({
            let after = with_profile(profiles, profile);
            &&& is_saved(after, profile.name@)
            &&& after[position(after, profile.name@)] == profile
            &&& with_profile(after, profile) == after
        }),
{
    let after = with_profile(profiles, profile);
    let name = profile.name@;
    lemma_position(profiles, name);
    lemma_position(after, name);
    let i = position(profiles, name);
    assert(after[i].name@ == name);
    assert forall|j: int| 0 <= j < i implies (#[trigger] after[j]).name@ != name by {
        assert(after[j] == profiles[j]);
    }
    assert(position(after, name) == i);
    assert(with_profile(after, profile) =~= after);
}

/// A profile that was deleted is not saved any more, and the others are as they
/// were.
pub proof fn lemma_deleted_is_gone(profiles: Seq<Profile>, name: Seq<char>)
    ensures
        !is_saved(without_profile(profiles, name), name),
        forall|i: int|
            0 <= i < profiles.len() && (#[trigger] profiles[i]).name@ != name ==> without_profile(
                profiles,
                name,
            ).contains(profiles[i]),
{
    let keep = not_named(name);
    assert forall|i: int| 0 <= i < without_profile(profiles, name).len() implies (
    #[trigger] without_profile(profiles, name)[i]).name@ != name by {
        profiles.lemma_filter_pred(keep, i);
    }
    assert forall|i: int| 0 <= i < profiles.len() && (#[trigger] profiles[i]).name@
        != name implies without_profile(profiles, name).contains(profiles[i]) by {
        assert(keep(profiles[i]));
        profiles.lemma_filter_contains(keep, i);
    }
}

/// Deleting a profile that was just saved under a new name leaves what was there
/// before.
pub proof fn lemma_save_then_delete(profiles: Seq<Profile>, profile: Profile)
    requires
        !is_saved(profiles, profile.name@),
    ensures
        without_profile(with_profile(profiles, profile), profile.name@) == profiles,
{
    reveal(Seq::filter);
    let after = with_profile(profiles, profile);
    assert(after.drop_last() =~= profiles);
    lemma_filter_all(profiles, profile.name@);
}

proof fn lemma_filter_all(profiles: Seq<Profile>, name: Seq<char>)
    requires
        !is_saved(profiles, name),
    ensures
        without_profile(profiles, name) == profiles,
    decreases profiles.len(),
{
    reveal(Seq::filter);
    if profiles.len() > 0 {
        let init = profiles.drop_last();
        assert forall|i: int| 0 <= i < init.len() implies (#[trigger] init[i]).name@ != name by {
            assert(profiles[i] == init[i]);
        }
        lemma_filter_all(init, name);
        assert(profiles[profiles.len() - 1].name@ != name);
        assert(init.push(profiles.last()) =~= profiles);
    }
}

/// Saving a profile puts it in place of the first of its name, whose place is given,
/// and changes no other.
pub proof fn lemma_saved_in_place(profiles: Seq<Profile>, profile: Profile, i: int)
    requires
        0 <= i < profiles.len(),
        profiles[i].name@ == profile.name@,
        forall|j: int| 0 <= j < i ==> (#[trigger] profiles[j]).name@ != profile.name@,
    ensures
        with_profile(profiles, profile).len() == profiles.len(),
        with_profile(profiles, profile)[i] == profile,
        forall|j: int|
            0 <= j < profiles.len() && j != i ==> #[trigger] with_profile(profiles, profile)[j]
                == profiles[j],
{
    lemma_position(profiles, profile.name@);
    let k = position(profiles, profile.name@);
    if k < i {
        assert(profiles[k].name@ == profile.name@);
    }
    if i < k {
        assert(profiles[i].name@ != profile.name@);
    }
}

/// Saving a profile of a new name puts it behind the others, which stay as they are.
pub proof fn lemma_saved_behind_others(profiles: Seq<Profile>, profile: Profile)
    requires
        forall|j: int| 0 <= j < profiles.len() ==> (#[trigger] profiles[j]).name@ != profile.name@,
    ensures
        with_profile(profiles, profile).len() == profiles.len() + 1,
        with_profile(profiles, profile).last() == profile,
        with_profile(profiles, profile).drop_last() == profiles,
{
    assert(with_profile(profiles, profile).drop_last() =~= profiles);
}

/// Deleting goes through a list profile by profile: those of the name are left out,
/// and the others stay in their order.
pub proof fn lemma_deleting_splits(a: Seq<Profile>, p: Profile, b: Seq<Profile>, name: Seq<char>)
    ensures
        without_profile(a + b, name) == without_profile(a, name) + without_profile(b, name),
        without_profile(seq![p], name) == if p.name@ == name {
            Seq::empty()
        } else {
            seq![p]
        },
    decreases b.len(),
{
    reveal(Seq::filter);
    assert(seq![p].drop_last() =~= Seq::<Profile>::empty());
    assert(without_profile(Seq::<Profile>::empty(), name) =~= Seq::<Profile>::empty());
    assert(Seq::<Profile>::empty().push(p) =~= seq![p]);
    if b.len() == 0 {
        assert(a + b =~= a);
        assert(without_profile(a, name) + without_profile(b, name) =~= without_profile(a, name));
    } else {
        lemma_deleting_splits(a, p, b.drop_last(), name);
        assert((a + b).drop_last() =~= a + b.drop_last());
        assert((a + b).last() == b.last());
        assert(without_profile(a + b, name) =~= without_profile(a, name) + without_profile(b, name));
    }
}

} // verus!
