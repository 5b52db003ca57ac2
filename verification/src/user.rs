use vstd::prelude::*;

use crate::address::IpAddress;
use crate::ident::{random_id, is_v4_id};

verus! {

/// Why an operation on the user or the user file did not succeed.
#[derive(Clone, Copy, Debug, PartialEq, Eq, Structural)]
pub enum UserErr {
    UserNotFound,
    FailedIp,
    FileNotFound,
    FileCreation,
    FailedRead,
    FailedWrite,
    FailedOpen,
    /// The system's random source did not answer when an identifier was drawn.
    FailedRandom,
}

/// The user of this messenger, or one of the user's contacts.
///
/// `contacts` is `Some` for the user and `None` for a contact.
#[derive(Debug, PartialEq)]
pub struct User {
    pub name: String,
    pub id: u128,
    pub ip: IpAddress,
    pub contacts: Option<Vec<User>>,
}

/// What a `User` holds, as mathematical values.
pub struct UserModel {
    pub name: Seq<char>,
    pub id: u128,
    pub ip: IpAddress,
    pub contacts: Option<Seq<UserModel>>,
}

/// The models of a sequence of users, one for one.
pub open spec fn models(s: Seq<User>) -> Seq<UserModel>
    decreases s, 1nat,
{
    if s.len() == 0 {
        Seq::empty()
    } else {
        models(s.drop_last()).push(s.last().model())
    }
}

impl User {
    /// What this user holds, its contacts' models included.
    pub open spec fn model(self) -> UserModel
        decreases self, 0nat,
    {
        UserModel {
            name: self.name@,
            id: self.id,
            ip: self.ip,
            contacts: match self.contacts {
                Some(v) => Some(models(v@)),
                None => None,
            },
        }
    }
}

/// The models of a sequence of users hold, one for one, the users' models.
pub proof fn lemma_models(s: Seq<User>)
    ensures
        models(s).len() == s.len(),
        forall|i: int| 0 <= i < s.len() ==> #[trigger] models(s)[i] == s[i].model(),
    decreases s.len(),
{
    if s.len() > 0 {
        lemma_models(s.drop_last());
    }
}

impl User {
    /// A deep copy of this user: the copy has the same model.
    pub fn duplicate(&self) -> (r: User)
        ensures
            r.model() == self.model(),
        decreases self,
    {
        let contacts = match &self.contacts {
            None => None,
            Some(v) => {
                let mut out: Vec<User> = Vec::new();
                let n = v.len();
                for i in 0..n
                    invariant
                        n == v@.len(),
                        self.contacts == Some(*v),
                        out@.len() == i,
                        forall|j: int| 0 <= j < i ==> #[trigger] out@[j].model() == v@[j].model(),
                {
                    proof {
                        assert(decreases_to!(*self => self.contacts));
                        assert(decreases_to!(self.contacts => self.contacts->0));
                        assert(decreases_to!(*v => v@));
                        assert(decreases_to!(v@ => v@[i as int]));
                    }
                    out.push(v[i].duplicate());
                }
                proof {
                    lemma_models(out@);
                    lemma_models(v@);
                    assert(models(out@) =~= models(v@));
                }
                Some(out)
            },
        };
        User { name: self.name.clone(), id: self.id, ip: self.ip, contacts }
    }
}

/// A test that a contact passes.
pub open spec fn named(name: Seq<char>) -> spec_fn(User) -> bool {
    |u: User| u.name@ == name
}

pub open spec fn with_id(id: u128) -> spec_fn(User) -> bool {
    |u: User| u.id == id
}

pub open spec fn at_ip(ip: IpAddress) -> spec_fn(User) -> bool {
    |u: User| u.ip == ip
}

/// Some contact of `cs` passes `p`.
pub open spec fn any_passes(cs: Seq<User>, p: spec_fn(User) -> bool) -> bool {
    exists|i: int| 0 <= i < cs.len() && #[trigger] p(cs[i])
}

/// `i` is the first position in `cs` of a contact that passes `p`.
pub open spec fn first_passing(cs: Seq<User>, p: spec_fn(User) -> bool, i: int) -> bool {
    &&& 0 <= i < cs.len()
    &&& p(cs[i])
    &&& forall|j: int| 0 <= j < i ==> !#[trigger] p(cs[j])
}

/// The contacts of a user, or none when the user holds no list.
pub open spec fn contact_list(u: User) -> Seq<User> {
    match u.contacts {
        Some(v) => v@,
        None => Seq::empty(),
    }
}

/// What a search for the first contact that passes `p` answers.
pub open spec fn search_result(u: User, p: spec_fn(User) -> bool, r: Result<User, UserErr>) -> bool {
    if any_passes(contact_list(u), p) {
        exists|i: int|
            first_passing(contact_list(u), p, i) && (r matches Ok(c) && c.model() == contact_list(
                u,
            )[i].model())
    } else {
        r == Err::<User, UserErr>(UserErr::UserNotFound)
    }
}

/// What a removal of the first contact that passes `p` does.
pub open spec fn removal(
    before: User,
    after: User,
    p: spec_fn(User) -> bool,
    r: Result<(), UserErr>,
) -> bool {
    &&& after.name == before.name
    &&& after.id == before.id
    &&& after.ip == before.ip
    &&& after.contacts is Some
    &&& if any_passes(contact_list(before), p) {
        &&& r is Ok
        &&& exists|i: int|
            first_passing(contact_list(before), p, i) && contact_list(after) == contact_list(
                before,
            ).remove(i)
    } else {
        &&& r == Err::<(), UserErr>(UserErr::UserNotFound)
        &&& contact_list(after) == contact_list(before)
    }
}

/// The position of the first contact named `name`.
fn find_name(cs: &Vec<User>, name: &str) -> (r: Option<usize>)
    ensures
        match r {
            Some(i) => first_passing(cs@, named(name@), i as int),
            None => !any_passes(cs@, named(name@)),
        },
{
    let target = name.to_owned();
    let n = cs.len();
    for i in 0..n
        invariant
            n == cs@.len(),
            target@ == name@,
            forall|j: int| 0 <= j < i ==> !#[trigger] named(name@)(cs@[j]),
    {
        if cs[i].name == target {
            return Some(i);
        }
    }
    None
}

/// The position of the first contact with identifier `id`.
fn find_id(cs: &Vec<User>, id: u128) -> (r: Option<usize>)
    ensures
        match r {
            Some(i) => first_passing(cs@, with_id(id), i as int),
            None => !any_passes(cs@, with_id(id)),
        },
{
    let n = cs.len();
    for i in 0..n
        invariant
            n == cs@.len(),
            forall|j: int| 0 <= j < i ==> !#[trigger] with_id(id)(cs@[j]),
    {
        if cs[i].id == id {
            return Some(i);
        }
    }
    None
}

/// The position of the first contact at address `ip`.
fn find_ip(cs: &Vec<User>, ip: IpAddress) -> (r: Option<usize>)
    ensures
        match r {
            Some(i) => first_passing(cs@, at_ip(ip), i as int),
            None => !any_passes(cs@, at_ip(ip)),
        },
{
    let n = cs.len();
    for i in 0..n
        invariant
            n == cs@.len(),
            forall|j: int| 0 <= j < i ==> !#[trigger] at_ip(ip)(cs@[j]),
    {
        if cs[i].ip == ip {
            return Some(i);
        }
    }
    None
}

impl User {
    /// Looks up the first contact named `name` and answers a copy of it.
    pub fn search_by_name(&mut self, name: &str) -> (r: Result<User, UserErr>)
        ensures
            *final(self) == *old(self),
            search_result(*old(self), named(name@), r),
    {
        match &self.contacts {
            None => Err(UserErr::UserNotFound),
            Some(cs) => match find_name(cs, name) {
                Some(i) => Ok(cs[i].duplicate()),
                None => Err(UserErr::UserNotFound),
            },
        }
    }

    /// Looks up the first contact with identifier `id` and answers a copy of it.
    pub fn search_by_id(&mut self, id: u128) -> (r: Result<User, UserErr>)
        ensures
            *final(self) == *old(self),
            search_result(*old(self), with_id(id), r),
    {
        match &self.contacts {
            None => Err(UserErr::UserNotFound),
            Some(cs) => match find_id(cs, id) {
                Some(i) => Ok(cs[i].duplicate()),
                None => Err(UserErr::UserNotFound),
            },
        }
    }

    /// Looks up the first contact at address `ip` and answers a copy of it.
    pub fn search_by_ip(&mut self, ip: IpAddress) -> (r: Result<User, UserErr>)
        ensures
            *final(self) == *old(self),
            search_result(*old(self), at_ip(ip), r),
    {
        match &self.contacts {
            None => Err(UserErr::UserNotFound),
            Some(cs) => match find_ip(cs, ip) {
                Some(i) => Ok(cs[i].duplicate()),
                None => Err(UserErr::UserNotFound),
            },
        }
    }

    /// Removes the first contact named `name`.
    pub fn remove_by_name(&mut self, name: &str) -> (r: Result<(), UserErr>)
        requires
            old(self).contacts is Some,
        ensures
            removal(*old(self), *final(self), named(name@), r),
    {
        let mut cs = self.contacts.take().unwrap();
        let r = match find_name(&cs, name) {
            Some(i) => {
                cs.remove(i);
                Ok(())
            },
            None => Err(UserErr::UserNotFound),
        };
        self.contacts = Some(cs);
        r
    }

    /// Removes the first contact at address `ip`.
    pub fn remove_by_ip(&mut self, ip: IpAddress) -> (r: Result<(), UserErr>)
        requires
            old(self).contacts is Some,
        ensures
            removal(*old(self), *final(self), at_ip(ip), r),
    {
        let mut cs = self.contacts.take().unwrap();
        let r = match find_ip(&cs, ip) {
            Some(i) => {
                cs.remove(i);
                Ok(())
            },
            None => Err(UserErr::UserNotFound),
        };
        self.contacts = Some(cs);
        r
    }

    /// Removes the first contact with identifier `id`.
    pub fn remove_by_id(&mut self, id: u128) -> (r: Result<(), UserErr>)
        requires
            old(self).contacts is Some,
        ensures
            removal(*old(self), *final(self), with_id(id), r),
    {
        let mut cs = self.contacts.take().unwrap();
        let r = match find_id(&cs, id) {
            Some(i) => {
                cs.remove(i);
                Ok(())
            },
            None => Err(UserErr::UserNotFound),
        };
        self.contacts = Some(cs);
        r
    }
}

/// `c` is a new contact with these name, address and identifier.
pub open spec fn fresh_contact(c: User, name: Seq<char>, ip: IpAddress, id: u128) -> bool {
    &&& c.name@ == name
    &&& c.id == id
    &&& c.ip == ip
    &&& c.contacts is None
}

/// The contacts `cs` after the users `us` from the user file have been merged
/// into them, in order: a user is added unless a contact of that name is
/// already there.
pub open spec fn merged(cs: Seq<User>, us: Seq<User>) -> Seq<User>
    decreases us.len(),
{
    if us.len() == 0 {
        cs
    } else {
        let m = merged(cs, us.drop_last());
        if any_passes(m, named(us.last().name@)) {
            m
        } else {
            m.push(us.last())
        }
    }
}

impl User {
    /// A new contact named `new_name` at `new_ip` with identifier `id`, unless
    /// the user already has a contact of that name.
    pub fn new_with_id(&mut self, new_name: &str, new_ip: IpAddress, id: u128) -> (r: Result<
        User,
        UserErr,
    >)
        ensures
            *final(self) == *old(self),
            any_passes(contact_list(*old(self)), named(new_name@)) ==> r == Err::<User, UserErr>(
                UserErr::UserNotFound,
            ),
            !any_passes(contact_list(*old(self)), named(new_name@)) ==> (r matches Ok(c)
                && fresh_contact(c, new_name@, new_ip, id)),
    {
        match self.search_by_name(new_name) {
            Err(UserErr::UserNotFound) => {},
            _ => {
                return Err(UserErr::UserNotFound);
            },
        }
        Ok(User { name: new_name.to_owned(), id, ip: new_ip, contacts: None })
    }

    /// A new contact named `new_name` at `new_ip` with a fresh random
    /// version-4 identifier, unless the user already has a contact of that
    /// name; `FailedRandom` where the random source does not answer.
    pub fn new(&mut self, new_name: &str, new_ip: IpAddress) -> (r: Result<User, UserErr>)
        ensures
            *final(self) == *old(self),
            any_passes(contact_list(*old(self)), named(new_name@)) ==> r == Err::<User, UserErr>(
                UserErr::UserNotFound,
            ),
            !any_passes(contact_list(*old(self)), named(new_name@)) ==> r == Err::<User, UserErr>(
                UserErr::FailedRandom,
            ) || (r matches Ok(c) && fresh_contact(c, new_name@, new_ip, c.id) && is_v4_id(c.id)),
    {
        match self.search_by_name(new_name) {
            Err(UserErr::UserNotFound) => {},
            _ => {
                return Err(UserErr::UserNotFound);
            },
        }
        let id = match random_id() {
            Some(id) => id,
            None => {
                return Err(UserErr::FailedRandom);
            },
        };
        self.new_with_id(new_name, new_ip, id)
    }

    /// Adds `new_contact` unless a contact with its identifier is already there.
    pub fn addcontact(&mut self, new_contact: User) -> (r: Result<(), UserErr>)
        requires
            old(self).contacts is Some,
        ensures
            r is Ok,
            final(self).name == old(self).name,
            final(self).id == old(self).id,
            final(self).ip == old(self).ip,
            final(self).contacts is Some,
            any_passes(contact_list(*old(self)), with_id(new_contact.id)) ==> contact_list(
                *final(self),
            ) == contact_list(*old(self)),
            !any_passes(contact_list(*old(self)), with_id(new_contact.id)) ==> contact_list(
                *final(self),
            ) == contact_list(*old(self)).push(new_contact),
    {
        let mut cs = self.contacts.take().unwrap();
        if find_id(&cs, new_contact.id).is_none() {
            cs.push(new_contact);
        }
        self.contacts = Some(cs);
        Ok(())
    }

    /// Makes a new contact named `name` at `ip` with identifier `id` and adds it,
    /// unless a contact of that name, or with that identifier, is already there.
    pub fn add_newcontact_with_id(&mut self, name: &str, ip: IpAddress, id: u128) -> (r: Result<
        (),
        UserErr,
    >)
        requires
            old(self).contacts is Some,
        ensures
            r is Ok,
            final(self).name == old(self).name,
            final(self).id == old(self).id,
            final(self).ip == old(self).ip,
            final(self).contacts is Some,
            any_passes(contact_list(*old(self)), named(name@)) || any_passes(
                contact_list(*old(self)),
                with_id(id),
            ) ==> contact_list(*final(self)) == contact_list(*old(self)),
            !any_passes(contact_list(*old(self)), named(name@)) && !any_passes(
                contact_list(*old(self)),
                with_id(id),
            ) ==> {
                &&& contact_list(*final(self)).len() == contact_list(*old(self)).len() + 1
                &&& contact_list(*final(self)).drop_last() == contact_list(*old(self))
                &&& fresh_contact(contact_list(*final(self)).last(), name@, ip, id)
            },
    {
        let new_contact = match self.new_with_id(name, ip, id) {
            Ok(user) => user,
            Err(_) => {
                return Ok(());
            },
        };
        let r = self.addcontact(new_contact);
        proof {
            if !any_passes(contact_list(*old(self)), with_id(id)) && !any_passes(
                contact_list(*old(self)),
                named(name@),
            ) {
                assert(contact_list(*self).drop_last() =~= contact_list(*old(self)));
            }
        }
        r
    }

    /// Makes a new contact named `name` at `ip` with a fresh random version-4
    /// identifier and adds it, unless a contact of that name, or with that
    /// identifier, is already there; `FailedRandom`, with nothing added, where
    /// the random source does not answer.
    pub fn add_newcontact(&mut self, name: &str, ip: IpAddress) -> (r: Result<(), UserErr>)
        requires
            old(self).contacts is Some,
        ensures
            r is Ok || r == Err::<(), UserErr>(UserErr::FailedRandom),
            final(self).name == old(self).name,
            final(self).id == old(self).id,
            final(self).ip == old(self).ip,
            final(self).contacts is Some,
            any_passes(contact_list(*old(self)), named(name@)) ==> r is Ok && contact_list(
                *final(self),
            ) == contact_list(*old(self)),
            r is Err ==> contact_list(*final(self)) == contact_list(*old(self)),
            !any_passes(contact_list(*old(self)), named(name@)) && r is Ok ==> exists|id: u128|
                #[trigger] is_v4_id(id) && if any_passes(contact_list(*old(self)), with_id(id)) {
                    contact_list(*final(self)) == contact_list(*old(self))
                } else {
                    &&& contact_list(*final(self)).len() == contact_list(*old(self)).len() + 1
                    &&& contact_list(*final(self)).drop_last() == contact_list(*old(self))
                    &&& fresh_contact(contact_list(*final(self)).last(), name@, ip, id)
                },
    {
        match self.search_by_name(name) {
            Err(UserErr::UserNotFound) => {},
            _ => {
                return Ok(());
            },
        }
        let id = match random_id() {
            Some(id) => id,
            None => {
                return Err(UserErr::FailedRandom);
            },
        };
        assert(is_v4_id(id));
        self.add_newcontact_with_id(name, ip, id)
    }

    /// Brings in the users read from the user file: where the user has no
    /// contact yet they all become the contacts; otherwise each one whose name
    /// is not among the contacts yet is added, in order.
    pub fn update_contact(&mut self, users: Option<Vec<User>>)
        requires
            users is Some ==> old(self).contacts is Some,
        ensures
            final(self).name == old(self).name,
            final(self).id == old(self).id,
            final(self).ip == old(self).ip,
            match users {
                None => final(self).contacts == old(self).contacts,
                Some(us) => if contact_list(*old(self)).len() == 0 {
                    final(self).contacts == Some(us)
                } else {
                    final(self).contacts is Some && contact_list(*final(self)) == merged(
                        contact_list(*old(self)),
                        us@,
                    )
                },
            },
    {
        let us = match users {
            None => {
                return ;
            },
            Some(us) => us,
        };
        let mut cs = self.contacts.take().unwrap();
        if cs.len() == 0 {
            self.contacts = Some(us);
            return ;
        }
        let ghost start = cs@;
        let mut rest = us;
        let ghost all = rest@;
        assert(all.len() == rest.len());
        let mut taken: usize = 0;
        while rest.len() > 0
            invariant
                taken + rest@.len() == all.len(),
                all.len() <= usize::MAX,
                rest@ == all.skip(taken as int),
                cs@ == merged(start, all.take(taken as int)),
            decreases rest@.len(),
        {
            let u = rest.remove(0);
            proof {
                assert(all.take(taken + 1).drop_last() =~= all.take(taken as int));
                assert(all.take(taken + 1).last() == u);
            }
            if find_name(&cs, u.name.as_str()).is_none() {
                cs.push(u);
            }
            taken = taken + 1;
            proof {
                assert(rest@ =~= all.skip(taken as int));
            }
        }
        proof {
            assert(all.take(taken as int) =~= all);
        }
        self.contacts = Some(cs);
    }
}

impl User {
    /// The user of this messenger, named `usernamne`, at `ip`, with identifier
    /// `id` and no contacts yet.
    pub fn first_user_with_id(usernamne: &str, ip: IpAddress, id: u128) -> (r: User)
        ensures
            r.name@ == usernamne@,
            r.id == id,
            r.ip == ip,
            r.contacts is Some,
            contact_list(r).len() == 0,
    {
        User { name: usernamne.to_owned(), id, ip, contacts: Some(Vec::new()) }
    }

    /// The user of this messenger, named `usernamne`, at `ip`, with a fresh
    /// random version-4 identifier and no contacts yet; `FailedRandom` where
    /// the random source does not answer.
    pub fn first_user(usernamne: &str, ip: IpAddress) -> (r: Result<User, UserErr>)
        ensures
            r is Err ==> r == Err::<User, UserErr>(UserErr::FailedRandom),
            r matches Ok(u) ==> u.name@ == usernamne@ && u.ip == ip && is_v4_id(u.id)
                && u.contacts is Some && contact_list(u).len() == 0,
    {
        match random_id() {
            Some(id) => Ok(User::first_user_with_id(usernamne, ip, id)),
            None => Err(UserErr::FailedRandom),
        }
    }
}

/// No two contacts share a name.
pub open spec fn unique_names(cs: Seq<User>) -> bool {
    forall|i: int, j: int| 0 <= i < j < cs.len() ==> cs[i].name@ != cs[j].name@
}

/// A contact added under a name that no contact has yet is the one that a
/// search by that name finds, and the names stay unique.
pub proof fn law_add_then_search(cs: Seq<User>, c: User, name: Seq<char>)
    requires
        !any_passes(cs, named(name)),
        c.name@ == name,
    ensures
        any_passes(cs.push(c), named(name)),
        first_passing(cs.push(c), named(name), cs.len() as int),
        unique_names(cs) ==> unique_names(cs.push(c)),
{
    let s = cs.push(c);
    assert(named(name)(s[cs.len() as int]));
    assert forall|j: int| 0 <= j < cs.len() implies !#[trigger] named(name)(s[j]) by {
        assert(s[j] == cs[j]);
        if named(name)(cs[j]) {
            assert(any_passes(cs, named(name)));
        }
    }
    if unique_names(cs) {
        assert forall|i: int, j: int| 0 <= i < j < s.len() implies s[i].name@ != s[j].name@ by {
            if j == cs.len() {
                if s[i].name@ == s[j].name@ {
                    assert(named(name)(cs[i]));
                }
            }
        }
    }
}

/// No two contacts share an identifier.
pub open spec fn unique_ids(cs: Seq<User>) -> bool {
    forall|i: int, j: int| 0 <= i < j < cs.len() ==> cs[i].id != cs[j].id
}

/// Adding a contact whose identifier no contact has keeps the identifiers
/// unique (`addcontact` adds only such a contact).
pub proof fn law_add_keeps_ids_unique(cs: Seq<User>, c: User)
    requires
        unique_ids(cs),
        !any_passes(cs, with_id(c.id)),
    ensures
        unique_ids(cs.push(c)),
{
    let s = cs.push(c);
    assert forall|i: int, j: int| 0 <= i < j < s.len() implies s[i].id != s[j].id by {
        if j == cs.len() && s[i].id == s[j].id {
            assert(with_id(c.id)(cs[i]));
        }
    }
}

/// Once the first contact named `name` is removed from contacts with unique
/// names, no contact of that name is left, and the names stay unique.
pub proof fn law_remove_then_search(cs: Seq<User>, name: Seq<char>, i: int)
    requires
        unique_names(cs),
        first_passing(cs, named(name), i),
    ensures
        !any_passes(cs.remove(i), named(name)),
        unique_names(cs.remove(i)),
{
    let s = cs.remove(i);
    if any_passes(s, named(name)) {
        let k = choose|k: int| 0 <= k < s.len() && #[trigger] named(name)(s[k]);
        if k < i {
            assert(s[k] == cs[k]);
        } else {
            assert(s[k] == cs[k + 1]);
            assert(cs[i].name@ == name);
        }
    }
    assert forall|a: int, b: int| 0 <= a < b < s.len() implies s[a].name@ != s[b].name@ by {
        let a2 = if a < i {
            a
        } else {
            a + 1
        };
        let b2 = if b < i {
            b
        } else {
            b + 1
        };
        assert(s[a] == cs[a2]);
        assert(s[b] == cs[b2]);
    }
}

/// Merging keeps every contact that was there, in place.
pub proof fn law_merge_keeps_contacts(cs: Seq<User>, us: Seq<User>)
    ensures
        merged(cs, us).len() >= cs.len(),
        merged(cs, us).take(cs.len() as int) == cs,
    decreases us.len(),
{
    if us.len() == 0 {
        assert(cs.take(cs.len() as int) =~= cs);
    } else {
        law_merge_keeps_contacts(cs, us.drop_last());
        let m = merged(cs, us.drop_last());
        assert(m.push(us.last()).take(cs.len() as int) =~= m.take(cs.len() as int));
    }
}

/// A contact of some name stays found when a contact is added after it.
proof fn lemma_passes_push(m: Seq<User>, u: User, p: spec_fn(User) -> bool)
    requires
        any_passes(m, p),
    ensures
        any_passes(m.push(u), p),
{
    let k = choose|k: int| 0 <= k < m.len() && #[trigger] p(m[k]);
    assert(m.push(u)[k] == m[k]);
}

/// After merging, every user of the file has a contact of its name.
pub proof fn law_merge_covers(cs: Seq<User>, us: Seq<User>)
    ensures
        forall|k: int| 0 <= k < us.len() ==> any_passes(merged(cs, us), named(#[trigger] us[k].name@)),
    decreases us.len(),
{
    if us.len() > 0 {
        let u0 = us.drop_last();
        law_merge_covers(cs, u0);
        let m = merged(cs, u0);
        let u = us.last();
        if !any_passes(m, named(u.name@)) {
            assert(named(u.name@)(m.push(u)[m.len() as int]));
        }
        assert forall|k: int| 0 <= k < us.len() implies any_passes(
            merged(cs, us),
            named(#[trigger] us[k].name@),
        ) by {
            if k < us.len() - 1 {
                assert(us[k] == u0[k]);
                if !any_passes(m, named(u.name@)) {
                    lemma_passes_push(m, u, named(us[k].name@));
                }
            }
        }
    }
}

/// Merging into contacts with unique names keeps the names unique.
pub proof fn law_merge_keeps_unique(cs: Seq<User>, us: Seq<User>)
    requires
        unique_names(cs),
    ensures
        unique_names(merged(cs, us)),
    decreases us.len(),
{
    if us.len() > 0 {
        law_merge_keeps_unique(cs, us.drop_last());
        let m = merged(cs, us.drop_last());
        let u = us.last();
        if !any_passes(m, named(u.name@)) {
            law_add_then_search(m, u, u.name@);
        }
    }
}

/// Merging users whose names are all there already changes nothing.
proof fn lemma_merge_present(m: Seq<User>, us: Seq<User>)
    requires
        forall|k: int| 0 <= k < us.len() ==> any_passes(m, named(#[trigger] us[k].name@)),
    ensures
        merged(m, us) == m,
    decreases us.len(),
{
    if us.len() > 0 {
        let u0 = us.drop_last();
        assert forall|k: int| 0 <= k < u0.len() implies any_passes(m, named(#[trigger] u0[k].name@)) by {
            assert(u0[k] == us[k]);
        }
        lemma_merge_present(m, u0);
        assert(any_passes(m, named(us[us.len() - 1].name@)));
    }
}

/// Merging the same users a second time changes nothing.
pub proof fn law_merge_idempotent(cs: Seq<User>, us: Seq<User>)
    ensures
        merged(merged(cs, us), us) == merged(cs, us),
{
    law_merge_covers(cs, us);
    lemma_merge_present(merged(cs, us), us);
}

/// Merging a list into itself changes nothing: when a first merge made the
/// file's users the contacts (the user had none), merging the same users again
/// leaves them as they are.
pub proof fn law_merge_self(us: Seq<User>)
    ensures
        merged(us, us) == us,
{
    assert forall|k: int| 0 <= k < us.len() implies any_passes(us, named(#[trigger] us[k].name@)) by {
        assert(named(us[k].name@)(us[k]));
    }
    lemma_merge_present(us, us);
}

impl Clone for User {
    fn clone(&self) -> (r: User)
        ensures
            r.model() == self.model(),
    {
        self.duplicate()
    }
}

} // verus!
