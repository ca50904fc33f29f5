//! The access-control model: principals, rights, delegation edges, and the
//! reachability relation that decides who holds which right on which variable.

use crate::util::{admin_name, anyone_name};
use crate::value::{distinct_names, first_index, has_name, lemma_first_index, ValueView};
use vstd::prelude::*;

verus! {

/// What a principal may do with a variable.
#[derive(Clone, Copy, Debug, PartialEq, Eq, Hash, Structural)]
pub enum Right {
    Read,
    Write,
    Append,
    Delegate,
}

/// The outcome of an operation on the database.
#[allow(non_camel_case_types)]
#[derive(Clone, Copy, Debug, PartialEq, Eq, Hash, Structural)]
pub enum Status {
    SUCCESS,
    DENIED,
    FAILED,
}

/// What a delegation is about: one variable, or every variable.
#[derive(Debug, PartialEq, Eq, Hash)]
pub enum Target {
    All,
    Variable(String),
}

/// The mathematical content of a [`Target`].
pub enum TargetView {
    All,
    Variable(Seq<char>),
}

impl View for Target {
    type V = TargetView;

    open spec fn view(&self) -> TargetView {
        match self {
            Target::All => TargetView::All,
            Target::Variable(name) => TargetView::Variable(name@),
        }
    }
}

impl Clone for Target {
    fn clone(&self) -> (res: Target)
        ensures
            res@ == self@,
    {
        match self {
            Target::All => Target::All,
            Target::Variable(name) => Target::Variable(name.clone()),
        }
    }
}

/// A stored delegation: `delegator` passes `right` on `target` to the
/// principal that holds the edge.
#[derive(Debug, PartialEq, Eq)]
pub struct Edge {
    pub target: String,
    pub delegator: String,
    pub right: Right,
}

/// The mathematical content of an [`Edge`].
pub struct EdgeView {
    pub target: Seq<char>,
    pub delegator: Seq<char>,
    pub right: Right,
}

impl View for Edge {
    type V = EdgeView;

    open spec fn view(&self) -> EdgeView {
        EdgeView { target: self.target@, delegator: self.delegator@, right: self.right }
    }
}

impl Clone for Edge {
    fn clone(&self) -> (res: Edge)
        ensures
            res@ == self@,
    {
        Edge { target: self.target.clone(), delegator: self.delegator.clone(), right: self.right }
    }
}

/// The edge by which `delegator` passes `right` on `target`.
pub open spec fn edge(target: Seq<char>, delegator: Seq<char>, right: Right) -> EdgeView {
    EdgeView { target: target, delegator: delegator, right: right }
}

/// The views of a list of edges.
pub open spec fn edges_view(edges: Seq<Edge>) -> Seq<EdgeView> {
    Seq::new(edges.len(), |i: int| edges[i]@)
}

/// A user principal in the model: a name, a password digest, the edges held.
pub struct UserView {
    pub name: Seq<char>,
    pub hash: Seq<u8>,
    pub edges: Seq<EdgeView>,
}

/// A global variable in the model.
pub struct VariableView {
    pub name: Seq<char>,
    pub value: ValueView,
}

/// The mathematical content of the database. Users and variables stand in
/// the order in which they were created.
pub struct DatabaseView {
    pub admin_hash: Seq<u8>,
    pub anyone: Seq<EdgeView>,
    pub users: Seq<UserView>,
    pub variables: Seq<VariableView>,
    pub default_delegator: Seq<char>,
}

/// The four rights, in the order in which they are granted together.
pub open spec fn all_rights() -> Seq<Right> {
    seq![Right::Read, Right::Write, Right::Append, Right::Delegate]
}

impl DatabaseView {
    /// The names of the user principals, in creation order.
    pub open spec fn user_names(self) -> Seq<Seq<char>> {
        Seq::new(self.users.len(), |i: int| self.users[i].name)
    }

    /// The names of the global variables, in creation order.
    pub open spec fn var_names(self) -> Seq<Seq<char>> {
        Seq::new(self.variables.len(), |i: int| self.variables[i].name)
    }

    /// Whether `name` is an ordinary user.
    pub open spec fn has_user(self, name: Seq<char>) -> bool {
        has_name(self.user_names(), name)
    }

    /// The position of user `name`.
    pub open spec fn user_index(self, name: Seq<char>) -> int {
        first_index(self.user_names(), name)
    }

    /// Whether `name` is a principal: `admin`, `anyone` or a user.
    pub open spec fn is_principal(self, name: Seq<char>) -> bool {
        name == admin_name() || name == anyone_name() || self.has_user(name)
    }

    /// Whether a global variable `name` exists.
    pub open spec fn contains(self, name: Seq<char>) -> bool {
        has_name(self.var_names(), name)
    }

    /// The position of variable `name`.
    pub open spec fn var_index(self, name: Seq<char>) -> int {
        first_index(self.var_names(), name)
    }

    /// The value of the global variable `name`.
    pub open spec fn value_of(self, name: Seq<char>) -> ValueView
        recommends
            self.contains(name),
    {
        self.variables[self.var_index(name)].value
    }

    /// The edges stored on principal `name`; `admin` stores none.
    pub open spec fn edges_of(self, name: Seq<char>) -> Seq<EdgeView> {
        if name == anyone_name() {
            self.anyone
        } else if self.has_user(name) {
            self.users[self.user_index(name)].edges
        } else {
            Seq::empty()
        }
    }

    /// Whether a stored edge names an existing principal and an existing variable.
    pub open spec fn edge_ok(self, e: EdgeView) -> bool {
        self.is_principal(e.delegator) && self.contains(e.target)
    }

    /// The invariant of the database.
    pub open spec fn wf(self) -> bool {
        &&& distinct_names(self.user_names())
        &&& distinct_names(self.var_names())
        &&& !self.has_user(admin_name())
        &&& !self.has_user(anyone_name())
        &&& self.is_principal(self.default_delegator)
        &&& forall|i: int| 0 <= i < self.anyone.len() ==> self.edge_ok(#[trigger] self.anyone[i])
        &&& forall|u: int, i: int|
            0 <= u < self.users.len() && 0 <= i < self.users[u].edges.len() ==> self.edge_ok(
                #[trigger] self.users[u].edges[i],
            )
    }

    /// Whether `p` has an edge by which `q` passes `r` on `v` to it. The
    /// edges of `anyone` count for every principal.
    pub open spec fn grants(self, v: Seq<char>, r: Right, p: Seq<char>, q: Seq<char>) -> bool {
        let e = EdgeView { target: v, delegator: q, right: r };
        self.edges_of(p).contains(e) || self.anyone.contains(e)
    }

    /// Whether `path` is a chain of delegations of `r` on `v` that ends in `admin`:
    /// each principal on it has the right from the next one.
    pub open spec fn is_chain(self, v: Seq<char>, r: Right, path: Seq<Seq<char>>) -> bool {
        &&& path.len() > 0
        &&& path.last() == admin_name()
        &&& forall|i: int|
            0 <= i < path.len() - 1 ==> self.grants(v, r, #[trigger] path[i], path[i + 1])
    }

    /// Whether principal `p` holds right `r` on variable `v`: a chain of
    /// delegations leads from `p` back to `admin`.
    pub open spec fn holds(self, v: Seq<char>, r: Right, p: Seq<char>) -> bool {
        exists|path: Seq<Seq<char>>| #[trigger] self.is_chain(v, r, path) && path[0] == p
    }

    /// Whether `p` itself stores an edge by which `q` passes `r` on `v` to it.
    pub open spec fn stores_grant(self, v: Seq<char>, r: Right, p: Seq<char>, q: Seq<char>) -> bool {
        self.edges_of(p).contains(EdgeView { target: v, delegator: q, right: r })
    }

    /// Whether `path` is a walk for `r` on `v` that ends in `admin`: its first
    /// step goes by an edge of the principal it starts from or of `anyone`,
    /// each later step by an edge that the delegator reached stores itself.
    pub open spec fn is_walk(self, v: Seq<char>, r: Right, path: Seq<Seq<char>>) -> bool {
        &&& path.len() > 0
        &&& path.last() == admin_name()
        &&& (path.len() > 1 ==> self.grants(v, r, path[0], path[1]))
        &&& forall|i: int|
            1 <= i < path.len() - 1 ==> self.stores_grant(v, r, #[trigger] path[i], path[i + 1])
    }

    /// Whether the walk that starts from the union of `p`'s edges and those
    /// of `anyone` reaches `admin`.
    pub open spec fn reaches(self, v: Seq<char>, r: Right, p: Seq<char>) -> bool {
        exists|path: Seq<Seq<char>>| #[trigger] self.is_walk(v, r, path) && path[0] == p
    }

    /// The database with the edges of `name` replaced; `admin` stores none.
    pub open spec fn with_edges(self, name: Seq<char>, edges: Seq<EdgeView>) -> DatabaseView {
        if name == anyone_name() {
            DatabaseView { anyone: edges, ..self }
        } else if self.has_user(name) {
            let i = self.user_index(name);
            DatabaseView {
                users: self.users.update(i, UserView { edges: edges, ..self.users[i] }),
                ..self
            }
        } else {
            self
        }
    }
}

/// `admin` holds every right on every variable.
pub proof fn lemma_admin_holds(db: DatabaseView, v: Seq<char>, r: Right)
    ensures
        db.holds(v, r, admin_name()),
{
    let path = seq![admin_name()];
    assert(db.is_chain(v, r, path) && path[0] == admin_name());
}

/// A principal that has a right from one who holds it holds it too.
pub proof fn lemma_holds_step(db: DatabaseView, v: Seq<char>, r: Right, p: Seq<char>, q: Seq<char>)
    requires
        db.grants(v, r, p, q),
        db.holds(v, r, q),
    ensures
        db.holds(v, r, p),
{
    let tail = choose|path: Seq<Seq<char>>| #[trigger] db.is_chain(v, r, path) && path[0] == q;
    let path = seq![p] + tail;
    assert forall|i: int| 0 <= i < path.len() - 1 implies db.grants(
        v,
        r,
        #[trigger] path[i],
        path[i + 1],
    ) by {
        if i > 0 {
            assert(path[i] == tail[i - 1]);
            assert(path[i + 1] == tail[i]);
        }
    }
    assert(path.last() == tail.last());
    assert(db.is_chain(v, r, path) && path[0] == p);
}

/// No right without a grant: a principal other than `admin` holds a right
/// only through some edge from a principal that holds it.
pub proof fn law_holds_needs_grant(db: DatabaseView, v: Seq<char>, r: Right, p: Seq<char>)
    requires
        db.holds(v, r, p),
        p != admin_name(),
    ensures
        exists|q: Seq<char>| #[trigger] db.grants(v, r, p, q) && db.holds(v, r, q),
{
    let path = choose|path: Seq<Seq<char>>| #[trigger] db.is_chain(v, r, path) && path[0] == p;
    assert(path.len() > 1);
    let tail = path.drop_first();
    assert forall|i: int| 0 <= i < tail.len() - 1 implies db.grants(
        v,
        r,
        #[trigger] tail[i],
        tail[i + 1],
    ) by {
        assert(tail[i] == path[i + 1]);
        assert(db.grants(v, r, path[i + 1], path[i + 1 + 1]));
    }
    assert(db.is_chain(v, r, tail) && tail[0] == path[1]);
    assert(db.grants(v, r, path[0int], path[0int + 1]));
}

/// Every principal on a chain that starts in a set closed under `grants`
/// lies in that set.
proof fn lemma_chain_stays(
    db: DatabaseView,
    v: Seq<char>,
    r: Right,
    closed: Set<Seq<char>>,
    path: Seq<Seq<char>>,
    i: int,
)
    requires
        db.is_chain(v, r, path),
        closed.contains(path[0]),
        forall|p: Seq<char>, q: Seq<char>|
            closed.contains(p) && #[trigger] db.grants(v, r, p, q) ==> closed.contains(q),
        0 <= i < path.len(),
    ensures
        closed.contains(path[i]),
    decreases i,
{
    if i > 0 {
        lemma_chain_stays(db, v, r, closed, path, i - 1);
        assert(db.grants(v, r, path[i - 1], path[i - 1 + 1]));
    }
}

/// No principal of a set that is closed under `grants` and leaves `admin`
/// out holds the right.
pub proof fn lemma_closed_set(
    db: DatabaseView,
    v: Seq<char>,
    r: Right,
    closed: Set<Seq<char>>,
    p: Seq<char>,
)
    requires
        closed.contains(p),
        !closed.contains(admin_name()),
        forall|a: Seq<char>, b: Seq<char>|
            closed.contains(a) && #[trigger] db.grants(v, r, a, b) ==> closed.contains(b),
    ensures
        !db.holds(v, r, p),
{
    if db.holds(v, r, p) {
        let path = choose|path: Seq<Seq<char>>| #[trigger] db.is_chain(v, r, path) && path[0] == p;
        lemma_chain_stays(db, v, r, closed, path, path.len() - 1);
    }
}

/// A user's name finds the user where names are distinct.
pub proof fn lemma_user_at(db: DatabaseView, j: int)
    requires
        distinct_names(db.user_names()),
        0 <= j < db.users.len(),
    ensures
        db.has_user(db.users[j].name),
        db.user_index(db.users[j].name) == j,
        db.edges_of(db.users[j].name) == if db.users[j].name == anyone_name() {
            db.anyone
        } else {
            db.users[j].edges
        },
{
    let names = db.user_names();
    lemma_first_index(names, names[j]);
    let q = first_index(names, names[j]);
    if q < j {
        assert(names[q] == names[j]);
    }
}

/// A variable's name finds the variable where names are distinct.
pub proof fn lemma_variable_at(db: DatabaseView, j: int)
    requires
        distinct_names(db.var_names()),
        0 <= j < db.variables.len(),
    ensures
        db.contains(db.variables[j].name),
        db.var_index(db.variables[j].name) == j,
{
    let names = db.var_names();
    lemma_first_index(names, names[j]);
    let q = first_index(names, names[j]);
    if q < j {
        assert(names[q] == names[j]);
    }
}

/// Whether an edge passes right `r` on variable `v`.
pub open spec fn edge_matches(e: EdgeView, v: Seq<char>, r: Right) -> bool {
    e.target == v && e.right == r
}

/// Replacing the edges of one principal by edges that name existing
/// principals and variables keeps the invariant, the names and the edges of
/// the others.
pub proof fn lemma_with_edges(db: DatabaseView, name: Seq<char>, edges: Seq<EdgeView>)
    requires
        db.wf(),
        forall|i: int| 0 <= i < edges.len() ==> db.edge_ok(#[trigger] edges[i]),
    ensures
        db.with_edges(name, edges).wf(),
        db.with_edges(name, edges).user_names() == db.user_names(),
        db.with_edges(name, edges).var_names() == db.var_names(),
        db.with_edges(name, edges).variables == db.variables,
        db.with_edges(name, edges).admin_hash == db.admin_hash,
        db.with_edges(name, edges).default_delegator == db.default_delegator,
        name == anyone_name() || db.has_user(name) ==> db.with_edges(name, edges).edges_of(name)
            == edges,
        forall|other: Seq<char>|
            other != name ==> #[trigger] db.with_edges(name, edges).edges_of(other) == db.edges_of(
                other,
            ),
{
    let after = db.with_edges(name, edges);
    lemma_first_index(db.user_names(), name);
    assert(after.user_names() =~= db.user_names());
    assert(after.var_names() =~= db.var_names());
    assert forall|e: EdgeView| db.edge_ok(e) implies after.edge_ok(e) by {}
    assert forall|other: Seq<char>| other != name implies #[trigger] after.edges_of(other)
        == db.edges_of(other) by {
        if name != anyone_name() && db.has_user(name) && db.has_user(other) {
            lemma_first_index(db.user_names(), other);
        }
    }
    assert forall|u: int, i: int|
        0 <= u < after.users.len() && 0 <= i < after.users[u].edges.len() implies after.edge_ok(
        #[trigger] after.users[u].edges[i],
    ) by {
        if name != anyone_name() && db.has_user(name) && u == db.user_index(name) {
            assert(db.edge_ok(edges[i]));
        } else {
            assert(db.edge_ok(db.users[u].edges[i]));
        }
    }
    assert forall|i: int| 0 <= i < after.anyone.len() implies after.edge_ok(
        #[trigger] after.anyone[i],
    ) by {
        if name == anyone_name() {
            assert(db.edge_ok(edges[i]));
        } else {
            assert(db.edge_ok(db.anyone[i]));
        }
    }
}

/// Every edge stored on a principal names an existing principal and an
/// existing variable.
pub proof fn lemma_edges_of_ok(db: DatabaseView, name: Seq<char>)
    requires
        db.wf(),
    ensures
        forall|i: int| 0 <= i < db.edges_of(name).len() ==> db.edge_ok(#[trigger] db.edges_of(name)[i]),
{
    lemma_first_index(db.user_names(), name);
    assert forall|i: int| 0 <= i < db.edges_of(name).len() implies db.edge_ok(
        #[trigger] db.edges_of(name)[i],
    ) by {
        if name == anyone_name() {
            assert(db.edge_ok(db.anyone[i]));
        } else if db.has_user(name) {
            assert(db.edge_ok(db.users[db.user_index(name)].edges[i]));
        }
    }
}

/// A change that keeps every name, every stored edge and a default
/// delegator that exists keeps the invariant.
pub proof fn lemma_same_edges(before: DatabaseView, after: DatabaseView)
    requires
        before.wf(),
        after.user_names() == before.user_names(),
        after.var_names() == before.var_names(),
        after.users.len() == before.users.len(),
        after.anyone == before.anyone,
        forall|u: int| 0 <= u < before.users.len() ==> after.users[u].edges == before.users[u].edges,
        after.is_principal(after.default_delegator),
    ensures
        after.wf(),
{
    assert forall|e: EdgeView| before.edge_ok(e) implies after.edge_ok(e) by {}
    assert forall|u: int, i: int|
        0 <= u < after.users.len() && 0 <= i < after.users[u].edges.len() implies after.edge_ok(
        #[trigger] after.users[u].edges[i],
    ) by {
        assert(before.edge_ok(before.users[u].edges[i]));
    }
    assert forall|i: int| 0 <= i < after.anyone.len() implies after.edge_ok(
        #[trigger] after.anyone[i],
    ) by {
        assert(before.edge_ok(before.anyone[i]));
    }
}

/// A chain of delegations can be walked from the union of the first
/// principal's edges and those of `anyone`.
proof fn lemma_chain_gives_walk(db: DatabaseView, v: Seq<char>, r: Right, path: Seq<Seq<char>>)
    requires
        db.is_chain(v, r, path),
    ensures
        db.reaches(v, r, path[0]),
    decreases path.len(),
{
    let p = path[0];
    if path.len() == 1 {
        assert(db.is_walk(v, r, path) && path[0] == p);
    } else {
        let tail = path.drop_first();
        assert forall|i: int| 0 <= i < tail.len() - 1 implies db.grants(
            v,
            r,
            #[trigger] tail[i],
            tail[i + 1],
        ) by {
            assert(tail[i] == path[i + 1]);
            assert(db.grants(v, r, path[i + 1], path[i + 1 + 1]));
        }
        assert(db.is_chain(v, r, tail));
        lemma_chain_gives_walk(db, v, r, tail);
        let w = choose|w: Seq<Seq<char>>| #[trigger] db.is_walk(v, r, w) && w[0] == tail[0];
        assert(db.grants(v, r, path[0int], path[0int + 1]));
        assert(tail[0] == path[1]);
        if w.len() > 1 && !db.stores_grant(v, r, w[0], w[1]) {
            let short = seq![p] + w.drop_first();
            assert(db.anyone.contains(EdgeView { target: v, delegator: w[1], right: r }));
            assert(short[1] == w[1]);
            assert forall|i: int| 1 <= i < short.len() - 1 implies db.stores_grant(
                v,
                r,
                #[trigger] short[i],
                short[i + 1],
            ) by {
                assert(short[i] == w[i]);
                assert(short[i + 1] == w[i + 1]);
            }
            assert(short.last() == w.last());
            assert(db.is_walk(v, r, short) && short[0] == p);
        } else {
            let long = seq![p] + w;
            assert(long[1] == w[0]);
            assert forall|i: int| 1 <= i < long.len() - 1 implies db.stores_grant(
                v,
                r,
                #[trigger] long[i],
                long[i + 1],
            ) by {
                assert(long[i] == w[i - 1]);
                assert(long[i + 1] == w[i]);
            }
            assert(long.last() == w.last());
            assert(db.is_walk(v, r, long) && long[0] == p);
        }
    }
}

/// The two ways to count the edges of `anyone` agree: to treat them as held
/// by every principal on the way, and to start the walk from the union of
/// the principal's edges and those of `anyone`.
pub proof fn law_walks_agree(db: DatabaseView, v: Seq<char>, r: Right, p: Seq<char>)
    ensures
        db.holds(v, r, p) <==> db.reaches(v, r, p),
{
    if db.holds(v, r, p) {
        let path = choose|path: Seq<Seq<char>>| #[trigger] db.is_chain(v, r, path) && path[0] == p;
        lemma_chain_gives_walk(db, v, r, path);
    }
    if db.reaches(v, r, p) {
        let w = choose|w: Seq<Seq<char>>| #[trigger] db.is_walk(v, r, w) && w[0] == p;
        assert forall|i: int| 0 <= i < w.len() - 1 implies db.grants(
            v,
            r,
            #[trigger] w[i],
            w[i + 1],
        ) by {
            if i >= 1 {
                assert(db.stores_grant(v, r, w[i], w[i + 1]));
            }
        }
        assert(db.is_chain(v, r, w) && w[0] == p);
    }
}

} // verus!
