//! The in-memory store: principals with their delegation edges, global
//! variables, and the operations that read and change them under the policy.

use crate::policy::{
    edge_matches, edges_view, lemma_admin_holds, lemma_closed_set, lemma_edges_of_ok,
    lemma_holds_step, lemma_same_edges, lemma_user_at, lemma_variable_at, lemma_with_edges,
    DatabaseView, Edge, EdgeView, TargetView, UserView, VariableView,
};
use crate::transitions::{
    appended, lemma_add_user, lemma_add_variable, lemma_delegate_frame, lemma_with_value,
    owner_edges,
};
use crate::util::{
    admin_name, anyone_name, is_admin, is_anyone, lemma_builtin_names_differ, same_digest,
    same_name,
};
use crate::value::{
    clone_fields, clone_value, field_names, fields_view, first_index, has_name, lemma_first_index,
    lemma_first_index_is, lemma_list_view, values_view, ValueView,
};
use vstd::prelude::*;

pub use crate::policy::{Right, Status, Target};
pub use crate::value::Value;

verus! {

/// An ordinary principal: a name, a password digest and the edges it holds.
#[derive(Debug, PartialEq, Eq)]
struct User {
    name: String,
    hash: [u8; 32],
    edges: Vec<Edge>,
}

/// A global variable.
#[derive(Debug, PartialEq, Eq)]
struct Variable {
    name: String,
    value: Value,
}

/// The store. `admin` and `anyone` are built in; users and variables are
/// kept in creation order, each name once.
#[derive(Debug, PartialEq, Eq)]
pub struct Database {
    admin_hash: [u8; 32],
    anyone: Vec<Edge>,
    users: Vec<User>,
    variables: Vec<Variable>,
    def_delegator: String,
}

impl View for User {
    type V = UserView;

    closed spec fn view(&self) -> UserView {
        UserView { name: self.name@, hash: self.hash@, edges: edges_view(self.edges@) }
    }
}

impl View for Variable {
    type V = VariableView;

    closed spec fn view(&self) -> VariableView {
        VariableView { name: self.name@, value: self.value@ }
    }
}

impl View for Database {
    type V = DatabaseView;

    closed spec fn view(&self) -> DatabaseView {
        DatabaseView {
            admin_hash: self.admin_hash@,
            anyone: edges_view(self.anyone@),
            users: Seq::new(self.users@.len(), |i: int| self.users@[i]@),
            variables: Seq::new(self.variables@.len(), |i: int| self.variables@[i]@),
            default_delegator: self.def_delegator@,
        }
    }
}

impl Clone for User {
    fn clone(&self) -> (res: User)
        ensures
            res@ == self@,
    {
        let mut edges: Vec<Edge> = Vec::new();
        let mut i: usize = 0;
        while i < self.edges.len()
            invariant
                i <= self.edges.len(),
                edges.len() == i,
                forall|j: int| 0 <= j < i ==> edges@[j]@ == self.edges@[j]@,
            decreases self.edges.len() - i,
        {
            edges.push(self.edges[i].clone());
            i += 1;
        }
        assert(edges_view(edges@) =~= edges_view(self.edges@));
        User { name: self.name.clone(), hash: self.hash, edges: edges }
    }
}

impl Clone for Variable {
    fn clone(&self) -> (res: Variable)
        ensures
            res@ == self@,
    {
        Variable { name: self.name.clone(), value: clone_value(&self.value) }
    }
}

impl Clone for Database {
    /// A copy of the store: the snapshot that a program runs on.
    fn clone(&self) -> (res: Database)
        ensures
            res@ == self@,
    {
        let mut anyone: Vec<Edge> = Vec::new();
        let mut i: usize = 0;
        while i < self.anyone.len()
            invariant
                i <= self.anyone.len(),
                anyone.len() == i,
                forall|j: int| 0 <= j < i ==> anyone@[j]@ == self.anyone@[j]@,
            decreases self.anyone.len() - i,
        {
            anyone.push(self.anyone[i].clone());
            i += 1;
        }
        let mut users: Vec<User> = Vec::new();
        let mut u: usize = 0;
        while u < self.users.len()
            invariant
                u <= self.users.len(),
                users.len() == u,
                forall|j: int| 0 <= j < u ==> users@[j]@ == self.users@[j]@,
            decreases self.users.len() - u,
        {
            users.push(self.users[u].clone());
            u += 1;
        }
        let mut variables: Vec<Variable> = Vec::new();
        let mut v: usize = 0;
        while v < self.variables.len()
            invariant
                v <= self.variables.len(),
                variables.len() == v,
                forall|j: int| 0 <= j < v ==> variables@[j]@ == self.variables@[j]@,
            decreases self.variables.len() - v,
        {
            variables.push(self.variables[v].clone());
            v += 1;
        }
        let res = Database {
            admin_hash: self.admin_hash,
            anyone: anyone,
            users: users,
            variables: variables,
            def_delegator: self.def_delegator.clone(),
        };
        proof {
            assert(res@.anyone =~= self@.anyone);
            assert(res@.users =~= self@.users);
            assert(res@.variables =~= self@.variables);
        }
        res
    }
}

/// The number of entries that are set.
spec fn count_true(s: Seq<bool>) -> nat
    decreases s.len(),
{
    if s.len() == 0 {
        0
    } else {
        count_true(s.drop_last()) + if s.last() {
            1nat
        } else {
            0nat
        }
    }
}

proof fn lemma_count_bound(s: Seq<bool>)
    ensures
        count_true(s) <= s.len(),
    decreases s.len(),
{
    if s.len() > 0 {
        lemma_count_bound(s.drop_last());
    }
}

proof fn lemma_count_set(s: Seq<bool>, k: int)
    requires
        0 <= k < s.len(),
        !s[k],
    ensures
        count_true(s.update(k, true)) == count_true(s) + 1,
    decreases s.len(),
{
    let t = s.update(k, true);
    if k == s.len() - 1 {
        assert(t.drop_last() =~= s.drop_last());
    } else {
        lemma_count_set(s.drop_last(), k);
        assert(t.drop_last() =~= s.drop_last().update(k, true));
    }
}

proof fn lemma_count_none(s: Seq<bool>)
    requires
        forall|i: int| 0 <= i < s.len() ==> !s[i],
    ensures
        count_true(s) == 0,
    decreases s.len(),
{
    if s.len() > 0 {
        lemma_count_none(s.drop_last());
    }
}

/// The users marked in `seen` are exactly those queued, each once.
spec fn queue_inv(n: nat, seen: Seq<bool>, queue: Seq<usize>) -> bool {
    &&& seen.len() == n
    &&& queue.len() == count_true(seen)
    &&& forall|t: int| 0 <= t < queue.len() ==> (#[trigger] queue[t]) < n && seen[queue[t] as int]
    &&& forall|k: int| 0 <= k < n && #[trigger] seen[k] ==> queue.contains(k as usize)
}

/// Whether the walk has taken account of principal `d`, which is not `admin`.
spec fn covered(db: DatabaseView, seen: Seq<bool>, d: Seq<char>) -> bool {
    d != admin_name() && (d == anyone_name() || (db.has_user(d) && seen[db.user_index(d)]))
}

/// Marking more users keeps a principal accounted for.
proof fn lemma_covered_mono(db: DatabaseView, before: Seq<bool>, after: Seq<bool>, d: Seq<char>)
    requires
        covered(db, before, d),
        before.len() == db.users.len(),
        after.len() == db.users.len(),
        forall|k: int| 0 <= k < db.users.len() && before[k] ==> after[k],
    ensures
        covered(db, after, d),
{
    lemma_first_index(db.user_names(), d);
}

/// Finds the position of the field called `name` in a record.
pub fn find_field(fields: &Vec<(String, String)>, name: &String) -> (res: Option<usize>)
    ensures
        (match res {
            Some(i) => i < fields.len() && first_index(field_names(fields_view(fields@)), name@)
                == i,
            None => !has_name(field_names(fields_view(fields@)), name@),
        }),
{
    let ghost names = field_names(fields_view(fields@));
    let mut i: usize = 0;
    while i < fields.len()
        invariant
            i <= fields.len(),
            names == field_names(fields_view(fields@)),
            forall|j: int| 0 <= j < i ==> names[j] != name@,
        decreases fields.len() - i,
    {
        if same_name(&fields[i].0, name) {
            proof {
                lemma_first_index_is(names, name@, i as int);
            }
            return Some(i);
        }
        i += 1;
    }
    proof {
        lemma_first_index_is(names, name@, i as int);
    }
    None
}

/// A copy of `items` with `value` added: its items where it is a list
/// itself, else `value` as one item.
pub fn append_value(items: &Vec<Value>, value: &Value) -> (res: Vec<Value>)
    ensures
        values_view(res@) == appended(values_view(items@), value@),
{
    let mut res: Vec<Value> = Vec::new();
    let mut i: usize = 0;
    while i < items.len()
        invariant
            i <= items.len(),
            res.len() == i,
            forall|j: int| 0 <= j < i ==> res@[j]@ == items@[j]@,
        decreases items.len() - i,
    {
        res.push(clone_value(&items[i]));
        i += 1;
    }
    match value {
        Value::List(more) => {
            let mut j: usize = 0;
            while j < more.len()
                invariant
                    j <= more.len(),
                    res.len() == items.len() + j,
                    forall|k: int| 0 <= k < items.len() ==> res@[k]@ == items@[k]@,
                    forall|k: int| 0 <= k < j ==> res@[items.len() + k]@ == more@[k]@,
                decreases more.len() - j,
            {
                res.push(clone_value(&more[j]));
                j += 1;
            }
            proof {
                lemma_list_view(*more);
                assert(values_view(res@) =~= values_view(items@) + values_view(more@));
            }
        },
        _ => {
            res.push(clone_value(value));
            assert(values_view(res@) =~= values_view(items@).push(value@));
        },
    }
    res
}

impl Database {
    /// The invariant of the store.
    pub open spec fn wf(&self) -> bool {
        self@.wf()
    }

    /// The store as it starts: `admin` with the given password digest,
    /// `anyone` as default delegator, no users and no variables.
    pub fn new(admin_hash: [u8; 32]) -> (res: Database)
        ensures
            res@ == DatabaseView::initial(admin_hash@),
            res.wf(),
    {
        let res = Database {
            admin_hash: admin_hash,
            anyone: Vec::new(),
            users: Vec::new(),
            variables: Vec::new(),
            def_delegator: String::from_str("anyone"),
        };
        proof {
            assert(res@.anyone =~= Seq::empty());
            assert(res@.users =~= Seq::empty());
            assert(res@.variables =~= Seq::empty());
            assert(res@.user_names() =~= Seq::empty());
            assert(res@.var_names() =~= Seq::empty());
        }
        res
    }

    /// Checks a password digest against the one stored for `principal`.
    #[must_use]
    pub fn check_pass(&self, principal: &String, hash: &[u8; 32]) -> (res: Status)
        ensures
            res == self@.password_status(principal@, hash@),
    {
        if is_admin(principal) {
            if same_digest(hash, &self.admin_hash) {
                Status::SUCCESS
            } else {
                Status::DENIED
            }
        } else if is_anyone(principal) {
            Status::DENIED
        } else {
            match self.find_user(principal) {
                Some(i) => {
                    if same_digest(hash, &self.users[i].hash) {
                        Status::SUCCESS
                    } else {
                        Status::DENIED
                    }
                },
                None => Status::FAILED,
            }
        }
    }

    /// Whether `name` is a principal of the store.
    pub fn is_principal(&self, name: &String) -> (res: bool)
        ensures
            res == self@.is_principal(name@),
    {
        is_admin(name) || is_anyone(name) || self.find_user(name).is_some()
    }

    /// Whether a global variable called `variable` exists.
    pub fn contains(&self, variable: &String) -> (res: bool)
        ensures
            res == self@.contains(variable@),
    {
        self.find_variable(variable).is_some()
    }

    /// Reads a variable on behalf of `user`.
    #[must_use]
    pub fn get(&self, user: &String, variable: &String) -> (res: Result<&Value, Status>)
        requires
            self.wf(),
            self@.is_principal(user@) || !self@.contains(variable@),
        ensures
            (match res {
                Ok(value) => self@.get(user@, variable@) == Ok::<ValueView, Status>(value@),
                Err(status) => self@.get(user@, variable@) == Err::<ValueView, Status>(status),
            }),
    {
        match self.find_variable(variable) {
            None => Err(Status::FAILED),
            Some(i) => {
                if self.check_right(variable, &Right::Read, user) {
                    Ok(&self.variables[i].value)
                } else {
                    Err(Status::DENIED)
                }
            },
        }
    }

    /// Replaces the edges stored on `name`, if it is `anyone` or a user.
    fn set_edges(&mut self, name: &String, edges: Vec<Edge>)
        requires
            old(self).wf(),
            forall|i: int| 0 <= i < edges.len() ==> old(self)@.edge_ok(#[trigger] edges[i]@),
        ensures
            final(self).wf(),
            final(self)@ == old(self)@.with_edges(name@, edges_view(edges@)),
    {
        proof {
            lemma_with_edges(self@, name@, edges_view(edges@));
        }
        if is_anyone(name) {
            self.anyone = edges;
            assert(self@.users =~= old(self)@.users);
            assert(self@.variables =~= old(self)@.variables);
        } else {
            match self.find_user(name) {
                Some(i) => {
                    self.users[i].edges = edges;
                    assert(self@.users =~= old(self)@.users.update(
                        i as int,
                        UserView { edges: edges_view(edges@), ..old(self)@.users[i as int] },
                    ));
                    assert(self@.variables =~= old(self)@.variables);
                },
                None => {},
            }
        }
    }

    /// A copy of the edges stored on `name`.
    fn edges_of(&self, name: &String) -> (res: Vec<Edge>)
        ensures
            edges_view(res@) == self@.edges_of(name@),
    {
        let mut res: Vec<Edge> = Vec::new();
        if is_anyone(name) {
            let mut i: usize = 0;
            while i < self.anyone.len()
                invariant
                    i <= self.anyone.len(),
                    res.len() == i,
                    forall|j: int| 0 <= j < i ==> res@[j]@ == self.anyone@[j]@,
                decreases self.anyone.len() - i,
            {
                res.push(self.anyone[i].clone());
                i += 1;
            }
            assert(edges_view(res@) =~= self@.edges_of(name@));
        } else {
            match self.find_user(name) {
                Some(u) => {
                    let mut i: usize = 0;
                    while i < self.users[u].edges.len()
                        invariant
                            u < self.users.len(),
                            i <= self.users[u as int].edges.len(),
                            res.len() == i,
                            forall|j: int|
                                0 <= j < i ==> res@[j]@ == self.users[u as int].edges@[j]@,
                        decreases self.users[u as int].edges.len() - i,
                    {
                        res.push(self.users[u].edges[i].clone());
                        i += 1;
                    }
                    assert(edges_view(res@) =~= self@.edges_of(name@));
                },
                None => {
                    assert(edges_view(res@) =~= self@.edges_of(name@));
                },
            }
        }
        res
    }

    /// The edges that a delegation on every variable adds.
    fn grant_all(&self, user: &String, delegator: &String, right: Right) -> (res: Vec<Edge>)
        requires
            self.wf(),
            self@.is_principal(delegator@),
            user@ == admin_name() || user@ == delegator@,
        ensures
            edges_view(res@) == self@.granted_all(
                user@,
                delegator@,
                right,
                self@.variables.len() as int,
            ),
            forall|i: int| 0 <= i < res.len() ==> self@.edge_ok(#[trigger] res[i]@),
    {
        let by_admin = is_admin(user);
        let mut res: Vec<Edge> = Vec::new();
        let mut i: usize = 0;
        assert(edges_view(res@) =~= self@.granted_all(user@, delegator@, right, 0));
        while i < self.variables.len()
            invariant
                self.wf(),
                self@.is_principal(delegator@),
                by_admin == (user@ == admin_name()),
                user@ == admin_name() || user@ == delegator@,
                i <= self.variables.len(),
                edges_view(res@) == self@.granted_all(user@, delegator@, right, i as int),
                forall|j: int| 0 <= j < res.len() ==> self@.edge_ok(#[trigger] res[j]@),
            decreases self.variables.len() - i,
        {
            let name = &self.variables[i].name;
            if by_admin || self.check_right(name, &Right::Delegate, delegator) {
                proof {
                    lemma_variable_at(self@, i as int);
                }
                let ghost before = res@;
                res.push(Edge { target: name.clone(), delegator: delegator.clone(), right: right });
                assert(edges_view(res@) =~= edges_view(before).push(
                    EdgeView { target: name@, delegator: delegator@, right: right },
                ));
            }
            i += 1;
        }
        res
    }

    /// Passes `right` on `target` from `delegator` to `delegated`, on behalf
    /// of `user`.
    #[must_use]
    pub fn delegate(
        &mut self,
        user: &String,
        target: &Target,
        delegator: &String,
        right: &Right,
        delegated: &String,
    ) -> (res: Status)
        requires
            old(self).wf(),
        ensures
            final(self).wf(),
            res == old(self)@.delegate_status(user@, target@, delegator@, delegated@),
            final(self)@ == old(self)@.delegate(user@, target@, delegator@, *right, delegated@),
    {
        if !self.is_principal(delegator) || !self.is_principal(delegated) {
            return Status::FAILED;
        }
        let by_admin = is_admin(user);
        let permitted = by_admin || same_name(user, delegator);
        let mut edges = self.edges_of(delegated);
        let ghost current = edges@;
        proof {
            lemma_edges_of_ok(self@, delegated@);
        }
        match target {
            Target::Variable(variable) => {
                if !self.contains(variable) {
                    return Status::FAILED;
                }
                if !permitted {
                    return Status::DENIED;
                }
                if !by_admin && !self.check_right(variable, &Right::Delegate, delegator) {
                    return Status::DENIED;
                }
                edges.push(
                    Edge { target: variable.clone(), delegator: delegator.clone(), right: *right },
                );
                assert(edges_view(edges@) =~= self@.edges_of(delegated@) + self@.granted(
                    user@,
                    target@,
                    delegator@,
                    *right,
                ));
            },
            Target::All => {
                if !permitted {
                    return Status::DENIED;
                }
                let mut extra = self.grant_all(user, delegator, *right);
                let ghost added = extra@;
                edges.append(&mut extra);
                assert(edges_view(edges@) =~= self@.edges_of(delegated@) + self@.granted(
                    user@,
                    target@,
                    delegator@,
                    *right,
                )) by {
                    assert(edges@ =~= current + added);
                }
            },
        }
        assert forall|i: int| 0 <= i < edges.len() implies self@.edge_ok(#[trigger] edges[i]@) by {
            if i < current.len() {
                assert(edges[i]@ == self@.edges_of(delegated@)[i]);
            }
        }
        self.set_edges(delegated, edges);
        Status::SUCCESS
    }

    /// The edges of `current` that taking a delegation back leaves.
    fn keep_edges(
        &self,
        user: &String,
        target: &Target,
        delegator: &String,
        right: Right,
        delegated: &String,
        current: &Vec<Edge>,
    ) -> (res: Vec<Edge>)
        requires
            self.wf(),
            self@.is_principal(delegator@),
            forall|i: int| 0 <= i < current.len() ==> self@.edge_ok(#[trigger] current[i]@),
        ensures
            edges_view(res@) == self@.kept_edges(
                user@,
                target@,
                delegator@,
                right,
                delegated@,
                edges_view(current@),
                current.len() as int,
            ),
            forall|i: int| 0 <= i < res.len() ==> self@.edge_ok(#[trigger] res[i]@),
    {
        let by_admin = is_admin(user);
        let by_delegated = same_name(user, delegated);
        let by_delegator = same_name(user, delegator);
        let ghost all = edges_view(current@);
        let mut res: Vec<Edge> = Vec::new();
        let mut i: usize = 0;
        assert(edges_view(res@) =~= self@.kept_edges(
            user@,
            target@,
            delegator@,
            right,
            delegated@,
            all,
            0,
        ));
        while i < current.len()
            invariant
                self.wf(),
                self@.is_principal(delegator@),
                by_admin == (user@ == admin_name()),
                by_delegated == (user@ == delegated@),
                by_delegator == (user@ == delegator@),
                all == edges_view(current@),
                i <= current.len(),
                forall|j: int| 0 <= j < current.len() ==> self@.edge_ok(#[trigger] current[j]@),
                edges_view(res@) == self@.kept_edges(
                    user@,
                    target@,
                    delegator@,
                    right,
                    delegated@,
                    all,
                    i as int,
                ),
                forall|j: int| 0 <= j < res.len() ==> self@.edge_ok(#[trigger] res[j]@),
            decreases current.len() - i,
        {
            let e = &current[i];
            let mut revoked = false;
            if same_name(&e.delegator, delegator) && e.right == right {
                revoked =
                match target {
                    Target::Variable(variable) => same_name(&e.target, variable),
                    Target::All => by_admin || by_delegated || (by_delegator && self.check_right(
                        &e.target,
                        &Right::Delegate,
                        delegator,
                    )),
                };
            }
            assert(all[i as int] == e@);
            assert(revoked == self@.revokes(user@, target@, delegator@, right, delegated@, e@));
            if !revoked {
                let ghost before = res@;
                assert(self@.edge_ok(current[i as int]@));
                res.push(e.clone());
                assert(edges_view(res@) =~= edges_view(before).push(e@));
            }
            i += 1;
        }
        res
    }

    /// Takes back what `delegator` passed to `delegated`: `right` on
    /// `target`, on behalf of `user`.
    #[must_use]
    pub fn undelegate(
        &mut self,
        user: &String,
        target: &Target,
        delegator: &String,
        right: &Right,
        delegated: &String,
    ) -> (res: Status)
        requires
            old(self).wf(),
        ensures
            final(self).wf(),
            res == old(self)@.undelegate_status(user@, target@, delegator@, delegated@),
            final(self)@ == old(self)@.undelegate(user@, target@, delegator@, *right, delegated@),
    {
        if !self.is_principal(delegator) || !self.is_principal(delegated) {
            return Status::FAILED;
        }
        let by_admin = is_admin(user);
        let by_delegated = same_name(user, delegated);
        let by_delegator = same_name(user, delegator);
        if !by_admin && !by_delegator && !by_delegated {
            return Status::DENIED;
        }
        match target {
            Target::Variable(variable) => {
                if !by_admin && !by_delegated && !self.check_right(
                    variable,
                    &Right::Delegate,
                    delegator,
                ) {
                    return Status::DENIED;
                }
            },
            Target::All => {},
        }
        let current = self.edges_of(delegated);
        proof {
            lemma_edges_of_ok(self@, delegated@);
            assert forall|i: int| 0 <= i < current.len() implies self@.edge_ok(
                #[trigger] current[i]@,
            ) by {
                assert(current[i]@ == self@.edges_of(delegated@)[i]);
            }
        }
        let kept = self.keep_edges(user, target, delegator, *right, delegated, &current);
        self.set_edges(delegated, kept);
        Status::SUCCESS
    }

    /// Names the principal whose rights new principals receive.
    #[must_use]
    pub fn set_default_delegator(&mut self, user: &String, delegator: &String) -> (res: Status)
        requires
            old(self).wf(),
        ensures
            final(self).wf(),
            res == old(self)@.default_delegator_status(user@, delegator@),
            final(self)@ == old(self)@.set_default_delegator(user@, delegator@),
    {
        if !is_admin(user) {
            Status::DENIED
        } else if !self.is_principal(delegator) {
            Status::FAILED
        } else {
            self.def_delegator = delegator.clone();
            proof {
                assert(self@.users =~= old(self)@.users);
                assert(self@.variables =~= old(self)@.variables);
                lemma_same_edges(old(self)@, self@);
            }
            Status::SUCCESS
        }
    }

    /// Creates the user `principal`; the default delegator passes it each
    /// right on every variable that exists.
    #[must_use]
    pub fn create_principal(&mut self, user: &String, principal: &String, hash: &[u8; 32]) -> (res:
        Status)
        requires
            old(self).wf(),
        ensures
            final(self).wf(),
            res == old(self)@.create_principal_status(user@, principal@),
            final(self)@ == old(self)@.create_principal(user@, principal@, hash@),
    {
        if !is_admin(user) {
            return Status::DENIED;
        }
        if self.is_principal(principal) {
            return Status::FAILED;
        }
        let delegator = self.def_delegator.clone();
        proof {
            lemma_add_user(self@, principal@, hash@);
        }
        self.users.push(User { name: principal.clone(), hash: *hash, edges: Vec::new() });
        proof {
            assert(edges_view(Seq::<Edge>::empty()) =~= Seq::<EdgeView>::empty());
            assert(self@.users =~= old(self)@.add_user(principal@, hash@).users);
            assert(self@.variables =~= old(self)@.variables);
            assert(self@ == old(self)@.add_user(principal@, hash@));
        }
        let read = self.delegate(user, &Target::All, &delegator, &Right::Read, principal);
        proof {
            lemma_delegate_frame(
                old(self)@.add_user(principal@, hash@),
                user@,
                TargetView::All,
                delegator@,
                Right::Read,
                principal@,
            );
        }
        let ghost db1 = self@;
        let write = self.delegate(user, &Target::All, &delegator, &Right::Write, principal);
        proof {
            lemma_delegate_frame(db1, user@, TargetView::All, delegator@, Right::Write, principal@);
        }
        let ghost db2 = self@;
        let append = self.delegate(user, &Target::All, &delegator, &Right::Append, principal);
        proof {
            lemma_delegate_frame(db2, user@, TargetView::All, delegator@, Right::Append, principal@);
        }
        let delegate = self.delegate(user, &Target::All, &delegator, &Right::Delegate, principal);
        Status::SUCCESS
    }

    /// Changes the password digest of `principal`.
    #[must_use]
    pub fn change_password(&mut self, user: &String, principal: &String, hash: &[u8; 32]) -> (res:
        Status)
        requires
            old(self).wf(),
        ensures
            final(self).wf(),
            res == old(self)@.change_password_status(user@, principal@),
            final(self)@ == old(self)@.change_password(user@, principal@, hash@),
    {
        if !is_admin(user) && !same_name(user, principal) {
            return Status::DENIED;
        }
        if is_anyone(principal) {
            return Status::FAILED;
        }
        if is_admin(principal) {
            self.admin_hash = *hash;
            proof {
                assert(self@.users =~= old(self)@.users);
                assert(self@.variables =~= old(self)@.variables);
                lemma_same_edges(old(self)@, self@);
            }
            return Status::SUCCESS;
        }
        match self.find_user(principal) {
            None => Status::FAILED,
            Some(i) => {
                self.users[i].hash = *hash;
                proof {
                    let before = old(self)@;
                    assert(self@.users =~= before.users.update(
                        i as int,
                        UserView { hash: hash@, ..before.users[i as int] },
                    ));
                    assert(self@.variables =~= before.variables);
                    assert(self@.user_names() =~= before.user_names());
                    lemma_same_edges(before, self@);
                }
                Status::SUCCESS
            },
        }
    }

    /// Replaces the value of the variable at position `i`.
    fn store(&mut self, i: usize, value: Value)
        requires
            old(self).wf(),
            i < old(self).variables.len(),
        ensures
            final(self).wf(),
            final(self)@ == old(self)@.with_value(old(self)@.variables[i as int].name, value@),
    {
        proof {
            lemma_variable_at(self@, i as int);
            lemma_with_value(self@, self@.variables[i as int].name, value@);
        }
        self.variables[i].value = value;
        proof {
            let before = old(self)@;
            assert(self@.users =~= before.users);
            assert(self@.variables =~= before.with_value(
                before.variables[i as int].name,
                value@,
            ).variables);
        }
    }

    /// Writes a variable on behalf of `user`: creates it, with `user` as its
    /// owner, or replaces its value where `user` may write it.
    #[must_use]
    pub fn set(&mut self, user: &String, variable: &String, value: &Value) -> (res: Status)
        requires
            old(self).wf(),
            old(self)@.is_principal(user@),
        ensures
            final(self).wf(),
            res == old(self)@.set_status(user@, variable@),
            final(self)@ == old(self)@.set(user@, variable@, value@),
    {
        match self.find_variable(variable) {
            None => {
                proof {
                    lemma_add_variable(self@, variable@, value@);
                }
                self.variables.push(Variable { name: variable.clone(), value: value.clone() });
                let ghost created = old(self)@.add_variable(variable@, value@);
                proof {
                    assert(self@.users =~= created.users);
                    assert(self@.variables =~= created.variables);
                    assert(self@ == created);
                }
                if !is_admin(user) {
                    let mut edges = self.edges_of(user);
                    let ghost current = edges@;
                    proof {
                        lemma_edges_of_ok(self@, user@);
                    }
                    let admin = String::from_str("admin");
                    edges.push(
                        Edge {
                            target: variable.clone(),
                            delegator: admin.clone(),
                            right: Right::Read,
                        },
                    );
                    edges.push(
                        Edge {
                            target: variable.clone(),
                            delegator: admin.clone(),
                            right: Right::Write,
                        },
                    );
                    edges.push(
                        Edge {
                            target: variable.clone(),
                            delegator: admin.clone(),
                            right: Right::Append,
                        },
                    );
                    edges.push(
                        Edge { target: variable.clone(), delegator: admin, right: Right::Delegate },
                    );
                    proof {
                        assert(edges_view(edges@) =~= created.edges_of(user@) + owner_edges(
                            variable@,
                        ));
                        assert forall|i: int| 0 <= i < edges.len() implies self@.edge_ok(
                            #[trigger] edges[i]@,
                        ) by {
                            if i < current.len() {
                                assert(edges[i]@ == self@.edges_of(user@)[i]);
                            }
                        }
                    }
                    self.set_edges(user, edges);
                }
                Status::SUCCESS
            },
            Some(i) => {
                if self.check_right(variable, &Right::Write, user) {
                    proof {
                        lemma_first_index(self@.var_names(), variable@);
                    }
                    self.store(i, value.clone());
                    Status::SUCCESS
                } else {
                    Status::DENIED
                }
            },
        }
    }

    /// Writes one field of a record on behalf of `user`.
    #[must_use]
    pub fn set_member(
        &mut self,
        user: &String,
        variable: &String,
        member: &String,
        value: &String,
    ) -> (res: Status)
        requires
            old(self).wf(),
            old(self)@.is_principal(user@) || !old(self)@.has_field(variable@, member@),
        ensures
            final(self).wf(),
            res == old(self)@.set_member_status(user@, variable@, member@),
            final(self)@ == old(self)@.set_member(user@, variable@, member@, value@),
    {
        let i = match self.find_variable(variable) {
            None => {
                return Status::FAILED;
            },
            Some(i) => i,
        };
        proof {
            lemma_first_index(self@.var_names(), variable@);
        }
        let mut fields = match &self.variables[i].value {
            Value::FieldVals(fields) => clone_fields(fields),
            _ => {
                return Status::FAILED;
            },
        };
        let ghost before = fields_view(fields@);
        let k = match find_field(&fields, member) {
            None => {
                return Status::FAILED;
            },
            Some(k) => k,
        };
        if !self.check_right(variable, &Right::Write, user) {
            return Status::DENIED;
        }
        fields[k] = (member.clone(), value.clone());
        assert(fields_view(fields@) =~= before.update(k as int, (member@, value@)));
        self.store(i, Value::FieldVals(fields));
        Status::SUCCESS
    }

    /// Appends to a list on behalf of `user`: the items of `value` where it
    /// is a list itself, else `value` as one item.
    #[must_use]
    pub fn append(&mut self, user: &String, variable: &String, value: &Value) -> (res: Status)
        requires
            old(self).wf(),
            old(self)@.is_principal(user@) || !old(self)@.contains(variable@),
        ensures
            final(self).wf(),
            res == old(self)@.append_status(user@, variable@),
            final(self)@ == old(self)@.append(user@, variable@, value@),
    {
        let i = match self.find_variable(variable) {
            None => {
                return Status::FAILED;
            },
            Some(i) => i,
        };
        proof {
            lemma_first_index(self@.var_names(), variable@);
        }
        if !self.check_right(variable, &Right::Write, user) && !self.check_right(
            variable,
            &Right::Append,
            user,
        ) {
            return Status::DENIED;
        }
        let list = match &self.variables[i].value {
            Value::List(items) => {
                proof {
                    lemma_list_view(*items);
                }
                append_value(items, value)
            },
            _ => {
                return Status::FAILED;
            },
        };
        proof {
            lemma_list_view(list);
        }
        self.store(i, Value::List(list));
        Status::SUCCESS
    }

    /// Finds the position of the user called `name`.
    fn find_user(&self, name: &String) -> (res: Option<usize>)
        ensures
            (match res {
                Some(i) => i < self.users.len() && self@.has_user(name@) && self@.user_index(name@)
                    == i,
                None => !self@.has_user(name@),
            }),
    {
        let ghost names = self@.user_names();
        let mut i: usize = 0;
        while i < self.users.len()
            invariant
                i <= self.users.len(),
                names == self@.user_names(),
                forall|j: int| 0 <= j < i ==> names[j] != name@,
            decreases self.users.len() - i,
        {
            if same_name(&self.users[i].name, name) {
                proof {
                    lemma_first_index_is(names, name@, i as int);
                }
                return Some(i);
            }
            i += 1;
        }
        proof {
            lemma_first_index_is(names, name@, i as int);
        }
        None
    }

    /// Finds the position of the variable called `name`.
    fn find_variable(&self, name: &String) -> (res: Option<usize>)
        ensures
            (match res {
                Some(i) => i < self.variables.len() && self@.contains(name@) && self@.var_index(
                    name@,
                ) == i,
                None => !self@.contains(name@),
            }),
    {
        let ghost names = self@.var_names();
        let mut i: usize = 0;
        while i < self.variables.len()
            invariant
                i <= self.variables.len(),
                names == self@.var_names(),
                forall|j: int| 0 <= j < i ==> names[j] != name@,
            decreases self.variables.len() - i,
        {
            if same_name(&self.variables[i].name, name) {
                proof {
                    lemma_first_index_is(names, name@, i as int);
                }
                return Some(i);
            }
            i += 1;
        }
        proof {
            lemma_first_index_is(names, name@, i as int);
        }
        None
    }

    /// Walks one list of edges: reports whether an edge for `right` on
    /// `target` comes from `admin`, and queues the users such edges come from.
    fn scan_edges(
        &self,
        edges: &Vec<Edge>,
        target: &String,
        right: Right,
        seen: &mut Vec<bool>,
        queue: &mut Vec<usize>,
    ) -> (found: bool)
        requires
            self.wf(),
            forall|m: int| 0 <= m < edges.len() ==> self@.is_principal(edges[m].delegator@),
            old(seen)@.len() == self.users.len(),
            queue_inv(self.users.len() as nat, old(seen)@, old(queue)@),
        ensures
            final(seen)@.len() == self.users.len(),
            queue_inv(self.users.len() as nat, final(seen)@, final(queue)@),
            final(queue)@.len() >= old(queue)@.len(),
            forall|t: int| 0 <= t < old(queue)@.len() ==> final(queue)@[t] == old(queue)@[t],
            forall|k: int| 0 <= k < self.users.len() && old(seen)@[k] ==> final(seen)@[k],
            forall|k: int|
                0 <= k < self.users.len() && #[trigger] final(seen)@[k] && !old(seen)@[k]
                    ==> exists|m: int|
                    0 <= m < edges.len() && edge_matches(#[trigger] edges[m]@, target@, right)
                        && edges[m].delegator@ == self@.users[k].name,
            found ==> exists|m: int|
                0 <= m < edges.len() && edge_matches(#[trigger] edges[m]@, target@, right)
                    && edges[m].delegator@ == admin_name(),
            !found ==> forall|m: int|
                0 <= m < edges.len() && edge_matches(#[trigger] edges[m]@, target@, right)
                    ==> covered(self@, final(seen)@, edges[m].delegator@),
    {
        let ghost n = self.users.len() as nat;
        let ghost db = self@;
        let mut m: usize = 0;
        while m < edges.len()
            invariant
                m <= edges.len(),
                n == self.users.len(),
                db == self@,
                self.wf(),
                forall|m: int| 0 <= m < edges.len() ==> self@.is_principal(edges[m].delegator@),
                queue_inv(n, seen@, queue@),
                seen@.len() == n,
                old(seen)@.len() == n,
                queue@.len() >= old(queue)@.len(),
                forall|t: int| 0 <= t < old(queue)@.len() ==> queue@[t] == old(queue)@[t],
                forall|k: int| 0 <= k < n && old(seen)@[k] ==> seen@[k],
                forall|k: int|
                    0 <= k < n && #[trigger] seen@[k] && !old(seen)@[k] ==> exists|j: int|
                        0 <= j < edges.len() && edge_matches(#[trigger] edges[j]@, target@, right)
                            && edges[j].delegator@ == db.users[k].name,
                forall|j: int|
                    0 <= j < m && edge_matches(#[trigger] edges[j]@, target@, right) ==> covered(
                        db,
                        seen@,
                        edges[j].delegator@,
                    ),
            decreases edges.len() - m,
        {
            let e = &edges[m];
            let ghost before = seen@;
            let ghost queue_before = queue@;
            if same_name(&e.target, target) && e.right == right {
                if is_admin(&e.delegator) {
                    assert(edge_matches(edges[m as int]@, target@, right) && edges[m as int].delegator@
                        == admin_name());
                    return true;
                }
                if !is_anyone(&e.delegator) {
                    match self.find_user(&e.delegator) {
                        Some(k) => {
                            proof {
                                lemma_user_at(db, k as int);
                                lemma_first_index(db.user_names(), e.delegator@);
                            }
                            if !seen[k] {
                                proof {
                                    lemma_count_set(seen@, k as int);
                                }
                                seen[k] = true;
                                queue.push(k);
                                proof {
                                    assert(seen@ == before.update(k as int, true));
                                    assert(queue@[queue_before.len() as int] == k);
                                    assert forall|x: int|
                                        0 <= x < n && #[trigger] seen@[x] implies queue@.contains(
                                        x as usize,
                                    ) by {
                                        if x != k {
                                            assert(before[x]);
                                            let t = choose|t: int|
                                                0 <= t < queue_before.len() && queue_before[t]
                                                    == x as usize;
                                            assert(queue@[t] == x as usize);
                                        }
                                    }
                                    assert forall|x: int|
                                        0 <= x < n && #[trigger] seen@[x] && !old(
                                            seen,
                                        )@[x] implies exists|j: int|
                                        0 <= j < edges.len() && edge_matches(
                                            #[trigger] edges[j]@,
                                            target@,
                                            right,
                                        ) && edges[j].delegator@ == db.users[x].name by {
                                        if x != k {
                                            assert(before[x]);
                                        } else {
                                            assert(edge_matches(edges[m as int]@, target@, right)
                                                && edges[m as int].delegator@ == db.users[x].name);
                                        }
                                    }
                                }
                            }
                            assert(covered(db, seen@, e.delegator@));
                        },
                        None => {
                            proof {
                                assert(self@.is_principal(edges[m as int].delegator@));
                                assert(false);
                            }
                        },
                    }
                }
                assert(covered(db, seen@, e.delegator@));
            }
            proof {
                assert forall|j: int|
                    0 <= j < m + 1 && edge_matches(
                        #[trigger] edges[j]@,
                        target@,
                        right,
                    ) implies covered(db, seen@, edges[j].delegator@) by {
                    if j < m {
                        lemma_covered_mono(db, before, seen@, edges[j].delegator@);
                    }
                }
            }
            m += 1;
        }
        false
    }

    /// Whether `principal` holds `right` on the variable `target`: the walk
    /// over the delegation edges, from the principal's own and `anyone`'s
    /// back towards `admin`, each user visited once.
    pub fn check_right(&self, target: &String, right: &Right, principal: &String) -> (res: bool)
        requires
            self.wf(),
            self@.is_principal(principal@),
        ensures
            res == self@.holds(target@, *right, principal@),
    {
        let ghost db = self@;
        let ghost v = target@;
        let ghost r = *right;
        let ghost p = principal@;
        if is_admin(principal) {
            proof {
                lemma_admin_holds(db, v, r);
            }
            return true;
        }
        let n = self.users.len();
        let mut seen: Vec<bool> = vec![false; n];
        let mut queue: Vec<usize> = Vec::new();
        proof {
            lemma_count_none(seen@);
            lemma_builtin_names_differ();
            assert forall|m: int| 0 <= m < self.anyone.len() implies self@.is_principal(
                self.anyone[m].delegator@,
            ) by {
                assert(db.edge_ok(db.anyone[m]));
            }
        }
        if self.scan_edges(&self.anyone, target, *right, &mut seen, &mut queue) {
            proof {
                let m = choose|m: int|
                    0 <= m < self.anyone.len() && edge_matches(
                        #[trigger] self.anyone[m]@,
                        v,
                        r,
                    ) && self.anyone[m].delegator@ == admin_name();
                assert(db.anyone[m] == EdgeView { target: v, delegator: admin_name(), right: r });
                assert(db.grants(v, r, p, admin_name()));
                lemma_admin_holds(db, v, r);
                lemma_holds_step(db, v, r, p, admin_name());
            }
            return true;
        }
        proof {
            assert forall|k: int|
                0 <= k < n && #[trigger] seen@[k] && db.holds(v, r, db.users[k].name) implies db.holds(
                v,
                r,
                p,
            ) by {
                let m = choose|m: int|
                    0 <= m < self.anyone.len() && edge_matches(
                        #[trigger] self.anyone[m]@,
                        v,
                        r,
                    ) && self.anyone[m].delegator@ == db.users[k].name;
                assert(db.anyone[m] == EdgeView {
                    target: v,
                    delegator: db.users[k].name,
                    right: r,
                });
                assert(db.grants(v, r, p, db.users[k].name));
                if db.holds(v, r, db.users[k].name) {
                    lemma_holds_step(db, v, r, p, db.users[k].name);
                }
            }
        }
        let ghost first = seen@;
        if !is_anyone(principal) {
            match self.find_user(principal) {
                Some(i) => {
                    proof {
                        lemma_user_at(db, i as int);
                        lemma_first_index(db.user_names(), p);
                    }
                    if !seen[i] {
                        proof {
                            lemma_count_set(seen@, i as int);
                        }
                        let ghost queue_before = queue@;
                        seen[i] = true;
                        queue.push(i);
                        proof {
                            assert(seen@ == first.update(i as int, true));
                            assert(queue@[queue_before.len() as int] == i);
                            assert forall|x: int|
                                0 <= x < n && #[trigger] seen@[x] implies queue@.contains(
                                x as usize,
                            ) by {
                                if x != i {
                                    assert(first[x]);
                                    let t = choose|t: int|
                                        0 <= t < queue_before.len() && queue_before[t]
                                            == x as usize;
                                    assert(queue@[t] == x as usize);
                                }
                            }
                        }
                    }
                },
                None => {},
            }
        }
        proof {
            assert forall|m: int|
                0 <= m < self.anyone.len() && edge_matches(
                    #[trigger] self.anyone[m]@,
                    v,
                    r,
                ) implies covered(db, seen@, self.anyone[m].delegator@) by {
                lemma_covered_mono(db, first, seen@, self.anyone[m].delegator@);
            }
            assert forall|k: int|
                0 <= k < n && #[trigger] seen@[k] && db.holds(v, r, db.users[k].name) implies db.holds(
                v,
                r,
                p,
            ) by {
                if first[k] {
                } else {
                    assert(db.users[k].name == p);
                }
            }
        }
        let mut head: usize = 0;
        proof {
            lemma_count_bound(seen@);
        }
        while head < queue.len()
            invariant
                self.wf(),
                db == self@,
                v == target@,
                r == *right,
                p == principal@,
                p != admin_name(),
                db.is_principal(p),
                n == self.users.len(),
                queue_inv(n as nat, seen@, queue@),
                head <= queue.len() <= n,
                covered(db, seen@, p),
                forall|k: int|
                    0 <= k < n && #[trigger] seen@[k] ==> (db.holds(v, r, db.users[k].name)
                        ==> db.holds(v, r, p)),
                forall|m: int|
                    0 <= m < self.anyone.len() && edge_matches(#[trigger] self.anyone[m]@, v, r)
                        ==> covered(db, seen@, self.anyone[m].delegator@),
                forall|t: int, m: int|
                    0 <= t < head && 0 <= m < self.users[queue@[t] as int].edges.len()
                        && edge_matches(#[trigger] self.users[queue@[t] as int].edges[m]@, v, r)
                        ==> covered(db, seen@, self.users[queue@[t] as int].edges[m].delegator@),
            decreases n - head,
        {
            let j = queue[head];
            let ghost before = seen@;
            let ghost queue_before = queue@;
            proof {
                lemma_user_at(db, j as int);
                assert forall|m: int| 0 <= m < self.users[j as int].edges.len() implies self@.is_principal(
                    self.users[j as int].edges[m].delegator@,
                ) by {
                    assert(db.edge_ok(db.users[j as int].edges[m]));
                }
            }
            let found = self.scan_edges(&self.users[j].edges, target, *right, &mut seen, &mut queue);
            proof {
                let name = db.users[j as int].name;
                let own = self.users[j as int].edges;
                if found {
                    let m = choose|m: int|
                        0 <= m < own.len() && edge_matches(#[trigger] own[m]@, v, r)
                            && own[m].delegator@ == admin_name();
                    assert(db.users[j as int].edges[m] == EdgeView {
                        target: v,
                        delegator: admin_name(),
                        right: r,
                    });
                    assert(db.grants(v, r, name, admin_name()));
                    lemma_admin_holds(db, v, r);
                    lemma_holds_step(db, v, r, name, admin_name());
                    assert(before[j as int]);
                }
                assert forall|k: int|
                    0 <= k < n && #[trigger] seen@[k] && db.holds(v, r, db.users[k].name) implies db.holds(
                    v,
                    r,
                    p,
                ) by {
                    if !before[k] {
                        let m = choose|m: int|
                            0 <= m < own.len() && edge_matches(#[trigger] own[m]@, v, r)
                                && own[m].delegator@ == db.users[k].name;
                        assert(db.users[j as int].edges[m] == EdgeView {
                            target: v,
                            delegator: db.users[k].name,
                            right: r,
                        });
                        assert(db.grants(v, r, name, db.users[k].name));
                        if db.holds(v, r, db.users[k].name) {
                            lemma_holds_step(db, v, r, name, db.users[k].name);
                            assert(before[j as int]);
                        }
                    }
                }
                lemma_count_bound(seen@);
                lemma_covered_mono(db, before, seen@, p);
                assert forall|m: int|
                    0 <= m < self.anyone.len() && edge_matches(
                        #[trigger] self.anyone[m]@,
                        v,
                        r,
                    ) implies covered(db, seen@, self.anyone[m].delegator@) by {
                    lemma_covered_mono(db, before, seen@, self.anyone[m].delegator@);
                }
                if !found {
                assert forall|t: int, m: int|
                    0 <= t < head + 1 && 0 <= m < self.users[queue@[t] as int].edges.len()
                        && edge_matches(
                        #[trigger] self.users[queue@[t] as int].edges[m]@,
                        v,
                        r,
                    ) implies covered(
                    db,
                    seen@,
                    self.users[queue@[t] as int].edges[m].delegator@,
                ) by {
                    assert(queue@[t] == queue_before[t]);
                    if t < head {
                        lemma_covered_mono(
                            db,
                            before,
                            seen@,
                            self.users[queue_before[t] as int].edges[m].delegator@,
                        );
                    } else {
                        assert(covered(db, seen@, own[m].delegator@));
                    }
                }
                }
            }
            if found {
                return true;
            }
            head += 1;
        }
        proof {
            let closed = Set::new(|a: Seq<char>| covered(db, seen@, a));
            assert forall|a: Seq<char>, b: Seq<char>|
                closed.contains(a) && #[trigger] db.grants(v, r, a, b) implies closed.contains(
                b,
            ) by {
                let e = EdgeView { target: v, delegator: b, right: r };
                if db.anyone.contains(e) {
                    let m = choose|m: int| 0 <= m < db.anyone.len() && db.anyone[m] == e;
                    assert(edge_matches(self.anyone[m]@, v, r));
                } else {
                    assert(db.edges_of(a).contains(e));
                    assert(a != anyone_name());
                    let k = db.user_index(a);
                    lemma_first_index(db.user_names(), a);
                    assert(seen@[k]);
                    assert(queue@.contains(k as usize));
                    let t = choose|t: int| 0 <= t < queue@.len() && queue@[t] == k as usize;
                    let m = choose|m: int|
                        0 <= m < db.users[k].edges.len() && db.users[k].edges[m] == e;
                    assert(edge_matches(self.users[queue@[t] as int].edges[m]@, v, r));
                }
            }
            lemma_closed_set(db, v, r, closed, p);
        }
        false
    }
}

} // verus!
