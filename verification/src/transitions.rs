//! What each operation of the store does, stated on the model: the status it
//! reports and the state it leaves.

use crate::policy::{
    all_rights, lemma_edges_of_ok, lemma_same_edges, lemma_variable_at, lemma_with_edges,
    DatabaseView, EdgeView, Right, Status, TargetView, UserView, VariableView,
};
use crate::util::{admin_name, anyone_name};
use crate::value::{
    field_names, first_index, has_name, lemma_first_index, lemma_first_index_push, ValueView,
};
use vstd::prelude::*;

verus! {

/// The edges that make a principal the owner of variable `v`: each of the
/// four rights, passed by `admin`.
pub open spec fn owner_edges(v: Seq<char>) -> Seq<EdgeView> {
    Seq::new(4, |i: int| EdgeView { target: v, delegator: admin_name(), right: all_rights()[i] })
}

/// A list with `value` added: its items where it is a list itself, else
/// `value` as one item.
pub open spec fn appended(list: Seq<ValueView>, value: ValueView) -> Seq<ValueView> {
    match value {
        ValueView::List(items) => list + items,
        _ => list.push(value),
    }
}

impl DatabaseView {
    /// The store as it is created: `admin` with its password, `anyone`
    /// without edges, no users, no variables, `anyone` as default delegator.
    pub open spec fn initial(admin_hash: Seq<u8>) -> DatabaseView {
        DatabaseView {
            admin_hash: admin_hash,
            anyone: Seq::empty(),
            users: Seq::empty(),
            variables: Seq::empty(),
            default_delegator: anyone_name(),
        }
    }

    /// The outcome of a login: `FAILED` for an unknown principal, `DENIED`
    /// for `anyone` or a wrong password.
    pub open spec fn password_status(self, principal: Seq<char>, hash: Seq<u8>) -> Status {
        if principal == admin_name() {
            if hash == self.admin_hash {
                Status::SUCCESS
            } else {
                Status::DENIED
            }
        } else if principal == anyone_name() {
            Status::DENIED
        } else if self.has_user(principal) {
            if hash == self.users[self.user_index(principal)].hash {
                Status::SUCCESS
            } else {
                Status::DENIED
            }
        } else {
            Status::FAILED
        }
    }

    /// Whether `actor` may pass on `delegator`'s rights on `v`.
    pub open spec fn may_delegate(self, actor: Seq<char>, delegator: Seq<char>, v: Seq<char>) -> bool {
        actor == admin_name() || (actor == delegator && self.holds(v, Right::Delegate, delegator))
    }

    /// The outcome of a delegation.
    pub open spec fn delegate_status(
        self,
        actor: Seq<char>,
        target: TargetView,
        delegator: Seq<char>,
        delegatee: Seq<char>,
    ) -> Status {
        if !self.is_principal(delegator) || !self.is_principal(delegatee) {
            Status::FAILED
        } else if target matches TargetView::Variable(v) && !self.contains(v) {
            Status::FAILED
        } else if actor != admin_name() && actor != delegator {
            Status::DENIED
        } else if target matches TargetView::Variable(v) && !self.may_delegate(actor, delegator, v) {
            Status::DENIED
        } else {
            Status::SUCCESS
        }
    }

    /// The edges that a delegation on every variable adds for the first `n`
    /// variables: one for each on which `actor` may pass the right on.
    pub open spec fn granted_all(
        self,
        actor: Seq<char>,
        delegator: Seq<char>,
        right: Right,
        n: int,
    ) -> Seq<EdgeView>
        decreases n,
    {
        if n <= 0 {
            Seq::empty()
        } else {
            let rest = self.granted_all(actor, delegator, right, n - 1);
            let v = self.variables[n - 1].name;
            if self.may_delegate(actor, delegator, v) {
                rest.push(EdgeView { target: v, delegator: delegator, right: right })
            } else {
                rest
            }
        }
    }

    /// The edges that a successful delegation adds to the delegatee.
    pub open spec fn granted(
        self,
        actor: Seq<char>,
        target: TargetView,
        delegator: Seq<char>,
        right: Right,
    ) -> Seq<EdgeView> {
        match target {
            TargetView::Variable(v) => seq![
                EdgeView { target: v, delegator: delegator, right: right },
            ],
            TargetView::All => self.granted_all(
                actor,
                delegator,
                right,
                self.variables.len() as int,
            ),
        }
    }

    /// The state after a delegation: on success the delegatee holds the new
    /// edges after its old ones (`admin` stores none); otherwise nothing changes.
    pub open spec fn delegate(
        self,
        actor: Seq<char>,
        target: TargetView,
        delegator: Seq<char>,
        right: Right,
        delegatee: Seq<char>,
    ) -> DatabaseView {
        if self.delegate_status(actor, target, delegator, delegatee) == Status::SUCCESS {
            self.with_edges(
                delegatee,
                self.edges_of(delegatee) + self.granted(actor, target, delegator, right),
            )
        } else {
            self
        }
    }

    /// Whether `actor` may take back what `delegator` passed to `delegatee` on `v`.
    pub open spec fn may_undelegate(
        self,
        actor: Seq<char>,
        delegator: Seq<char>,
        delegatee: Seq<char>,
        v: Seq<char>,
    ) -> bool {
        actor == admin_name() || actor == delegatee || (actor == delegator && self.holds(
            v,
            Right::Delegate,
            delegator,
        ))
    }

    /// The outcome of taking a delegation back.
    pub open spec fn undelegate_status(
        self,
        actor: Seq<char>,
        target: TargetView,
        delegator: Seq<char>,
        delegatee: Seq<char>,
    ) -> Status {
        if !self.is_principal(delegator) || !self.is_principal(delegatee) {
            Status::FAILED
        } else if actor != admin_name() && actor != delegator && actor != delegatee {
            Status::DENIED
        } else if target matches TargetView::Variable(v) && !self.may_undelegate(
            actor,
            delegator,
            delegatee,
            v,
        ) {
            Status::DENIED
        } else {
            Status::SUCCESS
        }
    }

    /// Whether taking a delegation back removes edge `e`.
    pub open spec fn revokes(
        self,
        actor: Seq<char>,
        target: TargetView,
        delegator: Seq<char>,
        right: Right,
        delegatee: Seq<char>,
        e: EdgeView,
    ) -> bool {
        e.delegator == delegator && e.right == right && match target {
            TargetView::Variable(v) => e.target == v,
            TargetView::All => self.may_undelegate(actor, delegator, delegatee, e.target),
        }
    }

    /// The first `n` of `edges` without those that are taken back, in order.
    pub open spec fn kept_edges(
        self,
        actor: Seq<char>,
        target: TargetView,
        delegator: Seq<char>,
        right: Right,
        delegatee: Seq<char>,
        edges: Seq<EdgeView>,
        n: int,
    ) -> Seq<EdgeView>
        decreases n,
    {
        if n <= 0 {
            Seq::empty()
        } else {
            let rest = self.kept_edges(actor, target, delegator, right, delegatee, edges, n - 1);
            if self.revokes(actor, target, delegator, right, delegatee, edges[n - 1]) {
                rest
            } else {
                rest.push(edges[n - 1])
            }
        }
    }

    /// The state after taking a delegation back: on success the delegatee
    /// keeps its other edges; otherwise nothing changes.
    pub open spec fn undelegate(
        self,
        actor: Seq<char>,
        target: TargetView,
        delegator: Seq<char>,
        right: Right,
        delegatee: Seq<char>,
    ) -> DatabaseView {
        if self.undelegate_status(actor, target, delegator, delegatee) == Status::SUCCESS {
            let edges = self.edges_of(delegatee);
            self.with_edges(
                delegatee,
                self.kept_edges(
                    actor,
                    target,
                    delegator,
                    right,
                    delegatee,
                    edges,
                    edges.len() as int,
                ),
            )
        } else {
            self
        }
    }

    /// The outcome of naming a new default delegator.
    pub open spec fn default_delegator_status(self, actor: Seq<char>, name: Seq<char>) -> Status {
        if actor != admin_name() {
            Status::DENIED
        } else if !self.is_principal(name) {
            Status::FAILED
        } else {
            Status::SUCCESS
        }
    }

    /// The state after naming a new default delegator.
    pub open spec fn set_default_delegator(self, actor: Seq<char>, name: Seq<char>) -> DatabaseView {
        if self.default_delegator_status(actor, name) == Status::SUCCESS {
            DatabaseView { default_delegator: name, ..self }
        } else {
            self
        }
    }

    /// The outcome of creating a principal.
    pub open spec fn create_principal_status(self, actor: Seq<char>, name: Seq<char>) -> Status {
        if actor != admin_name() {
            Status::DENIED
        } else if self.is_principal(name) {
            Status::FAILED
        } else {
            Status::SUCCESS
        }
    }

    /// The store with one more user, who holds no edges yet.
    pub open spec fn add_user(self, name: Seq<char>, hash: Seq<u8>) -> DatabaseView {
        DatabaseView {
            users: self.users.push(UserView { name: name, hash: hash, edges: Seq::empty() }),
            ..self
        }
    }

    /// The state after creating a principal: the new user exists and the
    /// default delegator has passed it each of the four rights on every
    /// variable that exists at that moment.
    pub open spec fn create_principal(
        self,
        actor: Seq<char>,
        name: Seq<char>,
        hash: Seq<u8>,
    ) -> DatabaseView {
        if self.create_principal_status(actor, name) == Status::SUCCESS {
            let d = self.default_delegator;
            self.add_user(name, hash).delegate(
                admin_name(),
                TargetView::All,
                d,
                Right::Read,
                name,
            ).delegate(admin_name(), TargetView::All, d, Right::Write, name).delegate(
                admin_name(),
                TargetView::All,
                d,
                Right::Append,
                name,
            ).delegate(admin_name(), TargetView::All, d, Right::Delegate, name)
        } else {
            self
        }
    }

    /// The outcome of changing a password.
    pub open spec fn change_password_status(self, actor: Seq<char>, name: Seq<char>) -> Status {
        if actor != admin_name() && actor != name {
            Status::DENIED
        } else if name == anyone_name() || !self.is_principal(name) {
            Status::FAILED
        } else {
            Status::SUCCESS
        }
    }

    /// The state after changing a password.
    pub open spec fn change_password(
        self,
        actor: Seq<char>,
        name: Seq<char>,
        hash: Seq<u8>,
    ) -> DatabaseView {
        if self.change_password_status(actor, name) == Status::SUCCESS {
            if name == admin_name() {
                DatabaseView { admin_hash: hash, ..self }
            } else {
                let i = self.user_index(name);
                DatabaseView {
                    users: self.users.update(i, UserView { hash: hash, ..self.users[i] }),
                    ..self
                }
            }
        } else {
            self
        }
    }

    /// The store with the value of an existing variable replaced.
    pub open spec fn with_value(self, name: Seq<char>, value: ValueView) -> DatabaseView {
        DatabaseView {
            variables: self.variables.update(
                self.var_index(name),
                VariableView { name: name, value: value },
            ),
            ..self
        }
    }

    /// The store with one more variable.
    pub open spec fn add_variable(self, name: Seq<char>, value: ValueView) -> DatabaseView {
        DatabaseView {
            variables: self.variables.push(VariableView { name: name, value: value }),
            ..self
        }
    }

    /// The outcome of writing a variable: a new one is created, an existing
    /// one asks for the right to write.
    pub open spec fn set_status(self, actor: Seq<char>, var: Seq<char>) -> Status {
        if !self.contains(var) || self.holds(var, Right::Write, actor) {
            Status::SUCCESS
        } else {
            Status::DENIED
        }
    }

    /// The state after writing a variable. Who creates a variable, unless it
    /// is `admin`, receives the four rights on it from `admin`.
    pub open spec fn set(self, actor: Seq<char>, var: Seq<char>, value: ValueView) -> DatabaseView {
        if !self.contains(var) {
            let created = self.add_variable(var, value);
            if actor == admin_name() {
                created
            } else {
                created.with_edges(actor, created.edges_of(actor) + owner_edges(var))
            }
        } else if self.holds(var, Right::Write, actor) {
            self.with_value(var, value)
        } else {
            self
        }
    }

    /// Whether `var` is a record that has the field `field`.
    pub open spec fn has_field(self, var: Seq<char>, field: Seq<char>) -> bool {
        &&& self.contains(var)
        &&& self.value_of(var) matches ValueView::FieldVals(fields)
        &&& has_name(field_names(fields), field)
    }

    /// The outcome of writing a field of a record.
    pub open spec fn set_member_status(
        self,
        actor: Seq<char>,
        var: Seq<char>,
        field: Seq<char>,
    ) -> Status {
        if !self.has_field(var, field) {
            Status::FAILED
        } else if !self.holds(var, Right::Write, actor) {
            Status::DENIED
        } else {
            Status::SUCCESS
        }
    }

    /// The state after writing a field of a record.
    pub open spec fn set_member(
        self,
        actor: Seq<char>,
        var: Seq<char>,
        field: Seq<char>,
        value: Seq<char>,
    ) -> DatabaseView {
        if self.set_member_status(actor, var, field) == Status::SUCCESS {
            let fields = self.value_of(var)->FieldVals_0;
            self.with_value(
                var,
                ValueView::FieldVals(
                    fields.update(first_index(field_names(fields), field), (field, value)),
                ),
            )
        } else {
            self
        }
    }

    /// The outcome of appending to a list: the variable must exist, the
    /// actor must hold the right to write or to append, and the variable
    /// must be a list.
    pub open spec fn append_status(self, actor: Seq<char>, var: Seq<char>) -> Status {
        if !self.contains(var) {
            Status::FAILED
        } else if !self.holds(var, Right::Write, actor) && !self.holds(var, Right::Append, actor) {
            Status::DENIED
        } else if !self.value_of(var).is_list() {
            Status::FAILED
        } else {
            Status::SUCCESS
        }
    }

    /// The state after appending to a list.
    pub open spec fn append(self, actor: Seq<char>, var: Seq<char>, value: ValueView) -> DatabaseView {
        if self.append_status(actor, var) == Status::SUCCESS {
            self.with_value(
                var,
                ValueView::List(appended(self.value_of(var)->List_0, value)),
            )
        } else {
            self
        }
    }

    /// What reading a variable gives: `FAILED` for an unknown variable,
    /// `DENIED` without the right to read, else the value.
    pub open spec fn get(self, actor: Seq<char>, var: Seq<char>) -> Result<ValueView, Status> {
        if !self.contains(var) {
            Err(Status::FAILED)
        } else if !self.holds(var, Right::Read, actor) {
            Err(Status::DENIED)
        } else {
            Ok(self.value_of(var))
        }
    }
}

/// A new user keeps the invariant; the principals are the old ones and the
/// new one, and every other principal keeps its edges.
pub proof fn lemma_add_user(db: DatabaseView, name: Seq<char>, hash: Seq<u8>)
    requires
        db.wf(),
        !db.is_principal(name),
    ensures
        db.add_user(name, hash).wf(),
        db.add_user(name, hash).user_names() == db.user_names().push(name),
        db.add_user(name, hash).var_names() == db.var_names(),
        forall|x: Seq<char>| #[trigger]
            db.add_user(name, hash).is_principal(x) <==> db.is_principal(x) || x == name,
        db.add_user(name, hash).has_user(name),
        db.add_user(name, hash).user_index(name) == db.users.len(),
        forall|x: Seq<char>|
            x != name ==> #[trigger] db.add_user(name, hash).edges_of(x) == db.edges_of(x),
        db.add_user(name, hash).edges_of(name) == Seq::<EdgeView>::empty(),
{
    let after = db.add_user(name, hash);
    let names = db.user_names();
    assert(after.user_names() =~= names.push(name));
    assert(after.var_names() =~= db.var_names());
    lemma_first_index_push(names, name, name);
    lemma_first_index_push(names, name, admin_name());
    lemma_first_index_push(names, name, anyone_name());
    assert forall|x: Seq<char>| #[trigger]
        after.is_principal(x) <==> db.is_principal(x) || x == name by {
        lemma_first_index_push(names, name, x);
    }
    assert forall|x: Seq<char>| x != name implies #[trigger] after.edges_of(x) == db.edges_of(
        x,
    ) by {
        lemma_first_index_push(names, name, x);
        lemma_first_index(names, x);
    }
    assert forall|e: EdgeView| db.edge_ok(e) implies after.edge_ok(e) by {
        lemma_first_index_push(names, name, e.delegator);
    }
    assert forall|u: int, i: int|
        0 <= u < after.users.len() && 0 <= i < after.users[u].edges.len() implies after.edge_ok(
        #[trigger] after.users[u].edges[i],
    ) by {
        assert(db.edge_ok(db.users[u].edges[i]));
    }
    assert forall|i: int| 0 <= i < after.anyone.len() implies after.edge_ok(
        #[trigger] after.anyone[i],
    ) by {
        assert(db.edge_ok(db.anyone[i]));
    }
    lemma_first_index_push(names, name, db.default_delegator);
}

/// A new variable keeps the invariant, the principals and their edges.
pub proof fn lemma_add_variable(db: DatabaseView, name: Seq<char>, value: ValueView)
    requires
        db.wf(),
        !db.contains(name),
    ensures
        db.add_variable(name, value).wf(),
        db.add_variable(name, value).var_names() == db.var_names().push(name),
        db.add_variable(name, value).user_names() == db.user_names(),
        db.add_variable(name, value).contains(name),
        forall|x: Seq<char>| #[trigger]
            db.add_variable(name, value).contains(x) <==> db.contains(x) || x == name,
{
    let after = db.add_variable(name, value);
    let names = db.var_names();
    assert(after.var_names() =~= names.push(name));
    assert(after.user_names() =~= db.user_names());
    lemma_first_index_push(names, name, name);
    assert forall|x: Seq<char>| #[trigger] after.contains(x) <==> db.contains(x) || x == name by {
        lemma_first_index_push(names, name, x);
    }
    assert forall|e: EdgeView| db.edge_ok(e) implies after.edge_ok(e) by {
        lemma_first_index_push(names, name, e.target);
    }
    assert forall|u: int, i: int|
        0 <= u < after.users.len() && 0 <= i < after.users[u].edges.len() implies after.edge_ok(
        #[trigger] after.users[u].edges[i],
    ) by {
        assert(db.edge_ok(db.users[u].edges[i]));
    }
    assert forall|i: int| 0 <= i < after.anyone.len() implies after.edge_ok(
        #[trigger] after.anyone[i],
    ) by {
        assert(db.edge_ok(db.anyone[i]));
    }
}

/// A new value for an existing variable keeps the invariant and the names.
pub proof fn lemma_with_value(db: DatabaseView, name: Seq<char>, value: ValueView)
    requires
        db.wf(),
        db.contains(name),
    ensures
        db.with_value(name, value).wf(),
        db.with_value(name, value).var_names() == db.var_names(),
        db.with_value(name, value).user_names() == db.user_names(),
        db.with_value(name, value).value_of(name) == value,
{
    let after = db.with_value(name, value);
    lemma_first_index(db.var_names(), name);
    assert(after.var_names() =~= db.var_names());
    assert(after.user_names() =~= db.user_names());
    assert forall|e: EdgeView| db.edge_ok(e) implies after.edge_ok(e) by {}
    assert forall|u: int, i: int|
        0 <= u < after.users.len() && 0 <= i < after.users[u].edges.len() implies after.edge_ok(
        #[trigger] after.users[u].edges[i],
    ) by {
        assert(db.edge_ok(db.users[u].edges[i]));
    }
    assert forall|i: int| 0 <= i < after.anyone.len() implies after.edge_ok(
        #[trigger] after.anyone[i],
    ) by {
        assert(db.edge_ok(db.anyone[i]));
    }
}

/// The edges that a delegation on every variable adds name existing
/// variables.
pub proof fn lemma_granted_ok(
    db: DatabaseView,
    actor: Seq<char>,
    delegator: Seq<char>,
    right: Right,
    n: int,
)
    requires
        db.wf(),
        db.is_principal(delegator),
        n <= db.variables.len(),
    ensures
        forall|i: int|
            0 <= i < db.granted_all(actor, delegator, right, n).len() ==> db.edge_ok(
                #[trigger] db.granted_all(actor, delegator, right, n)[i],
            ),
    decreases n,
{
    if n > 0 {
        lemma_granted_ok(db, actor, delegator, right, n - 1);
        lemma_variable_at(db, n - 1);
        let rest = db.granted_all(actor, delegator, right, n - 1);
        let all = db.granted_all(actor, delegator, right, n);
        assert forall|i: int| 0 <= i < all.len() implies db.edge_ok(#[trigger] all[i]) by {
            if i < rest.len() {
                assert(all[i] == rest[i]);
            }
        }
    }
}

/// The edges that are kept when a delegation is taken back are edges that
/// were there.
pub proof fn lemma_kept_ok(
    db: DatabaseView,
    actor: Seq<char>,
    target: TargetView,
    delegator: Seq<char>,
    right: Right,
    delegatee: Seq<char>,
    edges: Seq<EdgeView>,
    n: int,
)
    requires
        n <= edges.len(),
    ensures
        forall|i: int|
            0 <= i < db.kept_edges(actor, target, delegator, right, delegatee, edges, n).len()
                ==> edges.contains(
                #[trigger] db.kept_edges(actor, target, delegator, right, delegatee, edges, n)[i],
            ),
    decreases n,
{
    if n > 0 {
        lemma_kept_ok(db, actor, target, delegator, right, delegatee, edges, n - 1);
        let rest = db.kept_edges(actor, target, delegator, right, delegatee, edges, n - 1);
        let all = db.kept_edges(actor, target, delegator, right, delegatee, edges, n);
        assert forall|i: int| 0 <= i < all.len() implies edges.contains(#[trigger] all[i]) by {
            if i < rest.len() {
                assert(all[i] == rest[i]);
            } else {
                assert(all[i] == edges[n - 1]);
            }
        }
    }
}

/// None of the edges that are kept when a delegation is taken back is one
/// that it takes back.
pub proof fn lemma_kept_none_revoked(
    db: DatabaseView,
    actor: Seq<char>,
    target: TargetView,
    delegator: Seq<char>,
    right: Right,
    delegatee: Seq<char>,
    edges: Seq<EdgeView>,
    n: int,
)
    requires
        n <= edges.len(),
    ensures
        forall|i: int|
            0 <= i < db.kept_edges(actor, target, delegator, right, delegatee, edges, n).len()
                ==> !db.revokes(
                actor,
                target,
                delegator,
                right,
                delegatee,
                #[trigger] db.kept_edges(actor, target, delegator, right, delegatee, edges, n)[i],
            ),
    decreases n,
{
    if n > 0 {
        lemma_kept_none_revoked(db, actor, target, delegator, right, delegatee, edges, n - 1);
        let rest = db.kept_edges(actor, target, delegator, right, delegatee, edges, n - 1);
        let all = db.kept_edges(actor, target, delegator, right, delegatee, edges, n);
        assert forall|i: int| 0 <= i < all.len() implies !db.revokes(
            actor,
            target,
            delegator,
            right,
            delegatee,
            #[trigger] all[i],
        ) by {
            if i < rest.len() {
                assert(all[i] == rest[i]);
            } else {
                assert(all[i] == edges[n - 1]);
            }
        }
    }
}

/// A delegation keeps the invariant, the principals and the variables.
pub proof fn lemma_delegate_frame(
    db: DatabaseView,
    actor: Seq<char>,
    target: TargetView,
    delegator: Seq<char>,
    right: Right,
    delegatee: Seq<char>,
)
    requires
        db.wf(),
    ensures
        db.delegate(actor, target, delegator, right, delegatee).wf(),
        db.delegate(actor, target, delegator, right, delegatee).user_names() == db.user_names(),
        db.delegate(actor, target, delegator, right, delegatee).var_names() == db.var_names(),
        db.delegate(actor, target, delegator, right, delegatee).variables == db.variables,
        forall|other: Seq<char>|
            other != delegatee ==> #[trigger] db.delegate(
                actor,
                target,
                delegator,
                right,
                delegatee,
            ).edges_of(other) == db.edges_of(other),
{
    if db.delegate_status(actor, target, delegator, delegatee) == Status::SUCCESS {
        let old_edges = db.edges_of(delegatee);
        let more = db.granted(actor, target, delegator, right);
        let edges = old_edges + more;
        lemma_edges_of_ok(db, delegatee);
        if target is All {
            lemma_granted_ok(db, actor, delegator, right, db.variables.len() as int);
        }
        assert forall|i: int| 0 <= i < edges.len() implies db.edge_ok(#[trigger] edges[i]) by {
            if i < old_edges.len() {
                assert(edges[i] == old_edges[i]);
            } else {
                assert(edges[i] == more[i - old_edges.len()]);
            }
        }
        lemma_with_edges(db, delegatee, edges);
    }
}

/// Taking a delegation back keeps the invariant, the principals and the
/// variables.
pub proof fn lemma_undelegate_frame(
    db: DatabaseView,
    actor: Seq<char>,
    target: TargetView,
    delegator: Seq<char>,
    right: Right,
    delegatee: Seq<char>,
)
    requires
        db.wf(),
    ensures
        db.undelegate(actor, target, delegator, right, delegatee).wf(),
        db.undelegate(actor, target, delegator, right, delegatee).user_names() == db.user_names(),
        db.undelegate(actor, target, delegator, right, delegatee).var_names() == db.var_names(),
        db.undelegate(actor, target, delegator, right, delegatee).variables == db.variables,
{
    if db.undelegate_status(actor, target, delegator, delegatee) == Status::SUCCESS {
        let old_edges = db.edges_of(delegatee);
        let edges = db.kept_edges(
            actor,
            target,
            delegator,
            right,
            delegatee,
            old_edges,
            old_edges.len() as int,
        );
        lemma_edges_of_ok(db, delegatee);
        lemma_kept_ok(
            db,
            actor,
            target,
            delegator,
            right,
            delegatee,
            old_edges,
            old_edges.len() as int,
        );
        assert forall|i: int| 0 <= i < edges.len() implies db.edge_ok(#[trigger] edges[i]) by {
            assert(old_edges.contains(edges[i]));
        }
        lemma_with_edges(db, delegatee, edges);
    }
}

/// Creating a principal keeps the invariant, the principals that were there
/// and the variables.
pub proof fn lemma_create_principal_frame(
    db: DatabaseView,
    actor: Seq<char>,
    name: Seq<char>,
    hash: Seq<u8>,
)
    requires
        db.wf(),
    ensures
        db.create_principal(actor, name, hash).wf(),
        db.create_principal(actor, name, hash).var_names() == db.var_names(),
        db.create_principal(actor, name, hash).variables == db.variables,
        forall|x: Seq<char>|
            db.is_principal(x) ==> #[trigger] db.create_principal(actor, name, hash).is_principal(
                x,
            ),
        db.create_principal_status(actor, name) == Status::SUCCESS ==> db.create_principal(
            actor,
            name,
            hash,
        ).is_principal(name),
        forall|other: Seq<char>|
            other != name ==> #[trigger] db.create_principal(actor, name, hash).edges_of(other)
                == db.edges_of(other),
{
    if db.create_principal_status(actor, name) == Status::SUCCESS {
        let d = db.default_delegator;
        let a = admin_name();
        let db0 = db.add_user(name, hash);
        lemma_add_user(db, name, hash);
        lemma_delegate_frame(db0, a, TargetView::All, d, Right::Read, name);
        let db1 = db0.delegate(a, TargetView::All, d, Right::Read, name);
        lemma_delegate_frame(db1, a, TargetView::All, d, Right::Write, name);
        let db2 = db1.delegate(a, TargetView::All, d, Right::Write, name);
        lemma_delegate_frame(db2, a, TargetView::All, d, Right::Append, name);
        let db3 = db2.delegate(a, TargetView::All, d, Right::Append, name);
        lemma_delegate_frame(db3, a, TargetView::All, d, Right::Delegate, name);
        let db4 = db3.delegate(a, TargetView::All, d, Right::Delegate, name);
        assert(db4.user_names() == db0.user_names());
        assert forall|x: Seq<char>| db.is_principal(x) implies #[trigger] db4.is_principal(x) by {
            assert(db0.is_principal(x));
        }
        assert(db0.is_principal(name));
        assert forall|other: Seq<char>| other != name implies #[trigger] db4.edges_of(other)
            == db.edges_of(other) by {
            assert(db0.edges_of(other) == db.edges_of(other));
            assert(db1.edges_of(other) == db0.edges_of(other));
            assert(db2.edges_of(other) == db1.edges_of(other));
            assert(db3.edges_of(other) == db2.edges_of(other));
            assert(db4.edges_of(other) == db3.edges_of(other));
        }
    }
}

/// Changing a password keeps the invariant, the principals and the variables.
pub proof fn lemma_change_password_frame(
    db: DatabaseView,
    actor: Seq<char>,
    name: Seq<char>,
    hash: Seq<u8>,
)
    requires
        db.wf(),
    ensures
        db.change_password(actor, name, hash).wf(),
        db.change_password(actor, name, hash).user_names() == db.user_names(),
        db.change_password(actor, name, hash).var_names() == db.var_names(),
        db.change_password(actor, name, hash).variables == db.variables,
{
    let after = db.change_password(actor, name, hash);
    lemma_first_index(db.user_names(), name);
    assert(after.user_names() =~= db.user_names());
    assert(after.var_names() =~= db.var_names());
    lemma_same_edges(db, after);
}

/// Naming a default delegator keeps the invariant, the principals and the
/// variables.
pub proof fn lemma_default_delegator_frame(db: DatabaseView, actor: Seq<char>, name: Seq<char>)
    requires
        db.wf(),
    ensures
        db.set_default_delegator(actor, name).wf(),
        db.set_default_delegator(actor, name).user_names() == db.user_names(),
        db.set_default_delegator(actor, name).var_names() == db.var_names(),
        db.set_default_delegator(actor, name).variables == db.variables,
{
    let after = db.set_default_delegator(actor, name);
    assert(after.user_names() =~= db.user_names());
    assert(after.var_names() =~= db.var_names());
    lemma_same_edges(db, after);
}

/// Every owner edge of an existing variable names `admin` and that variable.
proof fn lemma_owner_edges_ok(db: DatabaseView, var: Seq<char>)
    requires
        db.contains(var),
    ensures
        forall|i: int| 0 <= i < owner_edges(var).len() ==> db.edge_ok(#[trigger] owner_edges(var)[i]),
{
}

/// Writing a variable keeps the invariant and the principals; the
/// variables are those that were there and the one written.
pub proof fn lemma_set_frame(db: DatabaseView, actor: Seq<char>, var: Seq<char>, value: ValueView)
    requires
        db.wf(),
    ensures
        db.set(actor, var, value).wf(),
        db.set(actor, var, value).user_names() == db.user_names(),
        forall|x: Seq<char>| #[trigger]
            db.set(actor, var, value).contains(x) <==> db.contains(x) || x == var,
{
    if !db.contains(var) {
        let created = db.add_variable(var, value);
        lemma_add_variable(db, var, value);
        if actor != admin_name() {
            let old_edges = created.edges_of(actor);
            let edges = old_edges + owner_edges(var);
            lemma_edges_of_ok(created, actor);
            lemma_owner_edges_ok(created, var);
            assert forall|i: int| 0 <= i < edges.len() implies created.edge_ok(
                #[trigger] edges[i],
            ) by {
                if i < old_edges.len() {
                    assert(edges[i] == old_edges[i]);
                } else {
                    assert(edges[i] == owner_edges(var)[i - old_edges.len()]);
                }
            }
            lemma_with_edges(created, actor, edges);
        }
    } else if db.holds(var, Right::Write, actor) {
        lemma_with_value(db, var, value);
    }
    let after = db.set(actor, var, value);
    assert forall|x: Seq<char>| #[trigger] after.contains(x) <==> db.contains(x) || x == var by {
        if !db.contains(var) {
            let created = db.add_variable(var, value);
            assert(after.var_names() == created.var_names());
            assert(created.contains(x) <==> db.contains(x) || x == var);
        } else {
            assert(after.var_names() == db.var_names());
        }
    }
}

/// Writing a field keeps the invariant, the principals and the names of the
/// variables.
pub proof fn lemma_set_member_frame(
    db: DatabaseView,
    actor: Seq<char>,
    var: Seq<char>,
    field: Seq<char>,
    value: Seq<char>,
)
    requires
        db.wf(),
    ensures
        db.set_member(actor, var, field, value).wf(),
        db.set_member(actor, var, field, value).user_names() == db.user_names(),
        db.set_member(actor, var, field, value).var_names() == db.var_names(),
{
    if db.set_member_status(actor, var, field) == Status::SUCCESS {
        let fields = db.value_of(var)->FieldVals_0;
        lemma_with_value(
            db,
            var,
            ValueView::FieldVals(
                fields.update(first_index(field_names(fields), field), (field, value)),
            ),
        );
    }
}

/// Appending to a list keeps the invariant, the principals and the names of
/// the variables.
pub proof fn lemma_append_frame(
    db: DatabaseView,
    actor: Seq<char>,
    var: Seq<char>,
    value: ValueView,
)
    requires
        db.wf(),
    ensures
        db.append(actor, var, value).wf(),
        db.append(actor, var, value).user_names() == db.user_names(),
        db.append(actor, var, value).var_names() == db.var_names(),
{
    if db.append_status(actor, var) == Status::SUCCESS {
        lemma_with_value(db, var, ValueView::List(appended(db.value_of(var)->List_0, value)));
    }
}

} // verus!
