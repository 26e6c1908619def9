//! The decisions of the daemon: which links to cut, which to restore, and
//! when to stop, as a state machine fed with registry events.
//!
//! The caller performs the actions that the handlers return, in order, and
//! reports back what the outside world answered (`link_destroyed`,
//! `sync_started`).

use std::collections::HashMap;
use vstd::prelude::*;
use vstd::std_specs::iter::IteratorSpec;

use crate::config::{exprs_model, Config, ConfigModel};
use crate::filter::{eval_model, Context, ExprModel, Port};
use crate::link::{link_from_object_spec, Link, LinkError, LinkModel};
use crate::object::{label, label_spec, ObjectInfo, ObjectKind, ObjectModel};
use crate::signal::Shutdown;

verus! {

broadcast use vstd::std_specs::hash::group_hash_axioms;

/// The id of the PipeWire core object.
pub const CORE_ID: u32 = 0;

/// What the caller is asked to do.
#[derive(Debug)]
pub enum Action {
    /// A link was judged: the names of its two ends, and whether the filters allow it.
    Verdict { output_name: String, input_name: String, allowed: bool },
    /// Destroy the link; call `link_destroyed` when that succeeded.
    Destroy(Link),
    /// The filters block the link, but `log_only` keeps it.
    Spare(Link),
    /// Create the link again, with `Link::restore_properties`.
    Restore { link: Link, output_name: String, input_name: String },
    /// A new object of the link type could not be read as a link.
    Malformed(LinkError),
    /// A link joins node `node`, at its `end` end, which is not known, so the
    /// link is not judged.
    MissingNode { link: Link, node: u32, end: Port },
    /// Ask the core for a sync; call `sync_started` with its sequence number.
    Sync,
}

/// The model of an action.
pub enum ActionModel {
    Verdict { output_name: Seq<char>, input_name: Seq<char>, allowed: bool },
    Destroy(LinkModel),
    Spare(LinkModel),
    Restore { link: LinkModel, output_name: Seq<char>, input_name: Seq<char> },
    Malformed(LinkError),
    MissingNode { link: LinkModel, node: u32, end: Port },
    Sync,
}

impl View for Action {
    type V = ActionModel;

    open spec fn view(&self) -> ActionModel {
        match self {
            Action::Verdict { output_name, input_name, allowed } => ActionModel::Verdict {
                output_name: output_name@,
                input_name: input_name@,
                allowed: *allowed,
            },
            Action::Destroy(l) => ActionModel::Destroy(l@),
            Action::Spare(l) => ActionModel::Spare(l@),
            Action::Restore { link, output_name, input_name } => ActionModel::Restore {
                link: link@,
                output_name: output_name@,
                input_name: input_name@,
            },
            Action::Malformed(e) => ActionModel::Malformed(*e),
            Action::MissingNode { link, node, end } => ActionModel::MissingNode {
                link: link@,
                node: *node,
                end: *end,
            },
            Action::Sync => ActionModel::Sync,
        }
    }
}

pub open spec fn actions_model(actions: Seq<Action>) -> Seq<ActionModel> {
    actions.map_values(|a: Action| a@)
}

/// The daemon's state.
pub struct App {
    config: Config,
    objects: HashMap<u32, ObjectInfo>,
    destroyed_links: Vec<Link>,
    shutdown_seq: Option<i32>,
}

/// The model of the daemon's state: the configuration, the registry objects
/// by id, the links it cut (in the order it keeps them), and, once shutting
/// down, the sequence number of the final sync.
#[verifier::ext_equal]
pub struct AppModel {
    pub log_only: bool,
    pub unlink: Seq<ExprModel>,
    pub objects: Map<u32, ObjectModel>,
    pub destroyed: Seq<LinkModel>,
    pub shutdown_seq: Option<i32>,
}

pub open spec fn links_model(links: Seq<Link>) -> Seq<LinkModel> {
    links.map_values(|l: Link| l@)
}

impl View for App {
    type V = AppModel;

    closed spec fn view(&self) -> AppModel {
        AppModel {
            log_only: self.config.log_only,
            unlink: exprs_model(self.config.unlink@),
            objects: self.objects@.map_values(|o: ObjectInfo| o@),
            destroyed: links_model(self.destroyed_links@),
            shutdown_seq: self.shutdown_seq,
        }
    }
}

/// Whether each object is filed under its own id.
pub open spec fn objects_wf(objects: Map<u32, ObjectModel>) -> bool {
    forall|k: u32| #[trigger] objects.contains_key(k) ==> objects[k].id == k
}

/// Whether no filter matches a link between nodes with these names.
pub open spec fn allowed_spec(unlink: Seq<ExprModel>, output_name: Seq<char>, input_name: Seq<char>) -> bool {
    forall|i: int| 0 <= i < unlink.len() ==> !eval_model(#[trigger] unlink[i], output_name, input_name)
}

/// A link is allowed exactly when no configured filter matches it: one
/// matching filter, wherever it stands in the list, is enough to cut it.
pub proof fn law_allowed_iff_no_filter_matches(
    unlink: Seq<ExprModel>,
    output_name: Seq<char>,
    input_name: Seq<char>,
)
    ensures
        allowed_spec(unlink, output_name, input_name) <==> !(exists|k: int|
            0 <= k < unlink.len() && eval_model(#[trigger] unlink[k], output_name, input_name)),
{
}

/// One filter that matches a link is enough to cut it, whatever the others say.
pub proof fn law_one_match_cuts(
    unlink: Seq<ExprModel>,
    k: int,
    output_name: Seq<char>,
    input_name: Seq<char>,
)
    requires
        0 <= k < unlink.len(),
        eval_model(unlink[k], output_name, input_name),
    ensures
        !allowed_spec(unlink, output_name, input_name),
{
}

/// The name of node `id`, empty when the node is unknown.
pub open spec fn node_label(objects: Map<u32, ObjectModel>, id: u32) -> Seq<char> {
    if objects.contains_key(id) {
        label_spec(objects[id].props)
    } else {
        seq![]
    }
}

/// The actions for an object of the link type that has just been announced
/// (or that is checked again): it is judged when both its nodes are known
/// (else the first unknown one, output before input, is reported), and cut
/// when a filter matches it, unless `log_only` is set.
pub open spec fn judge_spec(m: AppModel, object: ObjectModel) -> Seq<ActionModel> {
    match link_from_object_spec(object) {
        Err(e) => seq![ActionModel::Malformed(e)],
        Ok(link) => if m.objects.contains_key(link.output_node) && m.objects.contains_key(
            link.input_node,
        ) {
            let output_name = label_spec(m.objects[link.output_node].props);
            let input_name = label_spec(m.objects[link.input_node].props);
            let allowed = allowed_spec(m.unlink, output_name, input_name);
            seq![ActionModel::Verdict { output_name, input_name, allowed }] + if allowed {
                seq![]
            } else if m.log_only {
                seq![ActionModel::Spare(link)]
            } else {
                seq![ActionModel::Destroy(link)]
            }
        } else if !m.objects.contains_key(link.output_node) {
            seq![ActionModel::MissingNode { link, node: link.output_node, end: Port::Output }]
        } else {
            seq![ActionModel::MissingNode { link, node: link.input_node, end: Port::Input }]
        },
    }
}

/// Whether a recorded link may be created again: the filters now allow it,
/// or `log_only` is set.
pub open spec fn restorable(m: AppModel, l: LinkModel) -> bool {
    allowed_spec(m.unlink, node_label(m.objects, l.output_node), node_label(m.objects, l.input_node))
        || m.log_only
}

pub open spec fn restore_action(m: AppModel, l: LinkModel) -> ActionModel {
    ActionModel::Restore {
        link: l,
        output_name: node_label(m.objects, l.output_node),
        input_name: node_label(m.objects, l.input_node),
    }
}

/// `Vec::swap_remove` on a sequence: the last element takes the place of the
/// `i`-th, which leaves.
pub open spec fn swap_remove<A>(d: Seq<A>, i: int) -> Seq<A> {
    d.update(i, d.last()).drop_last()
}

/// Going through the recorded links `d` from index `n - 1` down to 0, each
/// one that may be restored is restored and removed with `swap_remove`.
/// Yields the links that stay recorded and the actions.
pub open spec fn recheck_destroyed_spec(m: AppModel, d: Seq<LinkModel>, n: int) -> (
    Seq<LinkModel>,
    Seq<ActionModel>,
)
    decreases n,
{
    if n <= 0 || n > d.len() {
        (d, seq![])
    } else {
        let l = d[n - 1];
        if restorable(m, l) {
            let (rest, actions) = recheck_destroyed_spec(m, swap_remove(d, n - 1), n - 1);
            (rest, seq![restore_action(m, l)] + actions)
        } else {
            recheck_destroyed_spec(m, d, n - 1)
        }
    }
}

/// Judging again every object of the link type, in the order `keys`.
pub open spec fn recheck_existing_spec(m: AppModel, keys: Seq<u32>) -> Seq<ActionModel>
    decreases keys.len(),
{
    if keys.len() == 0 {
        seq![]
    } else {
        let object = m.objects[keys.last()];
        recheck_existing_spec(m, keys.drop_last()) + if object.kind == ObjectKind::Link {
            judge_spec(m, object)
        } else {
            seq![]
        }
    }
}

/// Whether `keys` lists each id of `objects` once (in the map's walking order).
pub open spec fn walk_order(keys: Seq<u32>, objects: Map<u32, ObjectModel>) -> bool {
    keys.no_duplicates() && keys.to_set() == objects.dom()
}

/// The outcome of checking everything again in state `m`: first the
/// recorded links (restoring those that may be), then every link object (in
/// the walking order `keys`).
pub open spec fn recheck_spec(m: AppModel, keys: Seq<u32>) -> (AppModel, Seq<ActionModel>) {
    let (rest, restores) = recheck_destroyed_spec(m, m.destroyed, m.destroyed.len() as int);
    let m2 = AppModel { destroyed: rest, ..m };
    (m2, restores + recheck_existing_spec(m2, keys))
}

/// State `m` with configuration `c` in place of its own.
pub open spec fn with_config(m: AppModel, c: ConfigModel) -> AppModel {
    AppModel { log_only: c.log_only, unlink: c.unlink, ..m }
}

/// Restoring every link of `d`, the last recorded first.
pub open spec fn restores_reversed(m: AppModel, d: Seq<LinkModel>) -> Seq<ActionModel>
    decreases d.len(),
{
    if d.len() == 0 {
        seq![]
    } else {
        seq![restore_action(m, d.last())] + restores_reversed(m, d.drop_last())
    }
}

/// When every recorded link may be restored, a recheck restores them all,
/// the last recorded first, and none stays recorded.
pub proof fn lemma_recheck_restores_all(m: AppModel, d: Seq<LinkModel>)
    requires
        forall|i: int| 0 <= i < d.len() ==> restorable(m, #[trigger] d[i]),
    ensures
        recheck_destroyed_spec(m, d, d.len() as int) == (Seq::<LinkModel>::empty(), restores_reversed(m, d)),
    decreases d.len(),
{
    if d.len() > 0 {
        let n = d.len() as int;
        assert(swap_remove(d, n - 1) =~= d.drop_last());
        assert forall|i: int| 0 <= i < d.drop_last().len() implies restorable(
            m,
            #[trigger] d.drop_last()[i],
        ) by {
            assert(d.drop_last()[i] == d[i]);
        }
        lemma_recheck_restores_all(m, d.drop_last());
        assert(restorable(m, d[n - 1]));
    } else {
        assert(d =~= seq![]);
    }
}

/// The link an action is about (a placeholder link for the actions that are
/// about none).
pub open spec fn action_link(a: ActionModel) -> LinkModel {
    match a {
        ActionModel::Destroy(l) => l,
        ActionModel::Spare(l) => l,
        ActionModel::Restore { link, .. } => link,
        ActionModel::MissingNode { link, .. } => link,
        _ => LinkModel { id: 0, output_node: 0, output_port: 0, input_node: 0, input_port: 0 },
    }
}

pub open spec fn restorable_in(m: AppModel) -> spec_fn(LinkModel) -> bool {
    |l: LinkModel| restorable(m, l)
}

pub open spec fn blocked_in(m: AppModel) -> spec_fn(LinkModel) -> bool {
    |l: LinkModel| !restorable(m, l)
}

proof fn lemma_filter_prefix(d: Seq<LinkModel>, n: int, p: spec_fn(LinkModel) -> bool)
    requires
        0 < n <= d.len(),
    ensures
        d.subrange(0, n).filter(p) == if p(d[n - 1]) {
            d.subrange(0, n - 1).filter(p).push(d[n - 1])
        } else {
            d.subrange(0, n - 1).filter(p)
        },
{
    reveal(Seq::filter);
    assert(d.subrange(0, n).drop_last() =~= d.subrange(0, n - 1));
}

proof fn lemma_recheck_partition_from(m: AppModel, d: Seq<LinkModel>, n: int)
    requires
        0 <= n <= d.len(),
        forall|j: int| n <= j < d.len() ==> !restorable(m, #[trigger] d[j]),
    ensures
        ({
            let (rest, acts) = recheck_destroyed_spec(m, d, n);
            &&& rest.to_multiset() =~= d.subrange(0, n).filter(blocked_in(m)).to_multiset().add(
                d.subrange(n, d.len() as int).to_multiset(),
            )
            &&& forall|i: int| 0 <= i < acts.len() ==> #[trigger] acts[i] == restore_action(
                m,
                action_link(acts[i]),
            )
            &&& acts.map_values(|a: ActionModel| action_link(a)).to_multiset() =~= d.subrange(
                0,
                n,
            ).filter(restorable_in(m)).to_multiset()
        }),
    decreases n,
{
    broadcast use vstd::seq_lib::group_to_multiset_ensures;
    broadcast use vstd::multiset::group_multiset_axioms;

    let len = d.len() as int;
    if n == 0 {
        reveal(Seq::filter);
        assert(d.subrange(0, 0) =~= Seq::<LinkModel>::empty());
        assert(d.subrange(0, len) =~= d);
        assert(Seq::<LinkModel>::empty().to_multiset() =~= vstd::multiset::Multiset::empty());
        let acts = Seq::<ActionModel>::empty();
        assert(acts.map_values(|a: ActionModel| action_link(a)) =~= Seq::<LinkModel>::empty());
    } else {
        let i = n - 1;
        let l = d[i];
        lemma_filter_prefix(d, n, blocked_in(m));
        lemma_filter_prefix(d, n, restorable_in(m));
        if restorable(m, l) {
            let d2 = swap_remove(d, i);
            assert forall|j: int| i <= j < d2.len() implies !restorable(m, #[trigger] d2[j]) by {
                if j == i {
                    assert(d2[j] == d[len - 1]);
                } else {
                    assert(d2[j] == d[j]);
                }
            }
            lemma_recheck_partition_from(m, d2, i);
            let (rest, acts2) = recheck_destroyed_spec(m, d2, i);
            assert(d2.subrange(0, i) =~= d.subrange(0, i));
            if i == len - 1 {
                assert(d2.subrange(i, d2.len() as int) =~= Seq::<LinkModel>::empty());
                assert(d.subrange(n, len) =~= Seq::<LinkModel>::empty());
            } else {
                let mid = d.subrange(n, len - 1);
                assert(d2.subrange(i, d2.len() as int) =~= seq![d[len - 1]] + mid);
                assert(d.subrange(n, len) =~= mid.push(d[len - 1]));
                vstd::seq_lib::lemma_multiset_commutative(seq![d[len - 1]], mid);
                assert(seq![d[len - 1]] =~= Seq::<LinkModel>::empty().push(d[len - 1]));
            }
            let acts = seq![restore_action(m, l)] + acts2;
            assert(recheck_destroyed_spec(m, d, n) == (rest, acts));
            assert forall|k: int| 0 <= k < acts.len() implies #[trigger] acts[k] == restore_action(
                m,
                action_link(acts[k]),
            ) by {
                if k > 0 {
                    assert(acts[k] == acts2[k - 1]);
                }
            }
            let links2 = acts2.map_values(|a: ActionModel| action_link(a));
            assert(acts.map_values(|a: ActionModel| action_link(a)) =~= seq![l] + links2);
            vstd::seq_lib::lemma_multiset_commutative(seq![l], links2);
            assert(seq![l] =~= Seq::<LinkModel>::empty().push(l));
        } else {
            lemma_recheck_partition_from(m, d, i);
            assert(d.subrange(i, len) =~= seq![l] + d.subrange(n, len));
            vstd::seq_lib::lemma_multiset_commutative(seq![l], d.subrange(n, len));
            assert(seq![l] =~= Seq::<LinkModel>::empty().push(l));
        }
    }
}

/// After a recheck, the links that stay recorded as cut are exactly those
/// that the filters still block (without `log_only`), and every other
/// recorded link is restored, once.
pub proof fn law_recheck_keeps_blocked(m: AppModel)
    ensures
        ({
            let (rest, acts) = recheck_destroyed_spec(m, m.destroyed, m.destroyed.len() as int);
            &&& rest.to_multiset() == m.destroyed.filter(blocked_in(m)).to_multiset()
            &&& forall|i: int| 0 <= i < acts.len() ==> #[trigger] acts[i] == restore_action(
                m,
                action_link(acts[i]),
            )
            &&& acts.map_values(|a: ActionModel| action_link(a)).to_multiset()
                == m.destroyed.filter(restorable_in(m)).to_multiset()
        }),
{
    broadcast use vstd::multiset::group_multiset_axioms;

    let d = m.destroyed;
    lemma_recheck_partition_from(m, d, d.len() as int);
    assert(d.subrange(0, d.len() as int) =~= d);
    assert(d.subrange(d.len() as int, d.len() as int) =~= Seq::<LinkModel>::empty());
    broadcast use vstd::seq_lib::group_to_multiset_ensures;
    assert(Seq::<LinkModel>::empty().to_multiset() =~= vstd::multiset::Multiset::empty());
    let (rest, acts) = recheck_destroyed_spec(m, d, d.len() as int);
    assert(rest.to_multiset() =~= d.filter(blocked_in(m)).to_multiset());
}

proof fn lemma_recheck_leaves_blocked(m: AppModel, d: Seq<LinkModel>, n: int)
    requires
        0 <= n <= d.len(),
        forall|j: int| n <= j < d.len() ==> !restorable(m, #[trigger] d[j]),
    ensures
        forall|j: int|
            0 <= j < recheck_destroyed_spec(m, d, n).0.len() ==> !restorable(
                m,
                #[trigger] recheck_destroyed_spec(m, d, n).0[j],
            ),
    decreases n,
{
    if n > 0 {
        let i = n - 1;
        if restorable(m, d[i]) {
            let d2 = swap_remove(d, i);
            assert forall|j: int| i <= j < d2.len() implies !restorable(m, #[trigger] d2[j]) by {
                if j == i {
                    assert(d2[j] == d[d.len() - 1]);
                } else {
                    assert(d2[j] == d[j]);
                }
            }
            lemma_recheck_leaves_blocked(m, d2, i);
            assert(recheck_destroyed_spec(m, d, n).0 == recheck_destroyed_spec(m, d2, i).0);
        } else {
            lemma_recheck_leaves_blocked(m, d, i);
            assert(recheck_destroyed_spec(m, d, n) == recheck_destroyed_spec(m, d, i));
        }
    } else {
        assert(recheck_destroyed_spec(m, d, n).0 == d);
    }
}

proof fn lemma_recheck_all_blocked(m: AppModel, d: Seq<LinkModel>, n: int)
    requires
        0 <= n <= d.len(),
        forall|j: int| 0 <= j < d.len() ==> !restorable(m, #[trigger] d[j]),
    ensures
        recheck_destroyed_spec(m, d, n) == (d, Seq::<ActionModel>::empty()),
    decreases n,
{
    if n > 0 {
        lemma_recheck_all_blocked(m, d, n - 1);
    }
}

/// A second pass over the recorded links, with the configuration and the
/// objects unchanged since the first, restores nothing and leaves the
/// recorded links as they are, in order.
pub proof fn law_recheck_settles(m: AppModel)
    ensures
        ({
            let rest = recheck_destroyed_spec(m, m.destroyed, m.destroyed.len() as int).0;
            recheck_destroyed_spec(AppModel { destroyed: rest, ..m }, rest, rest.len() as int) == (
                rest,
                Seq::<ActionModel>::empty(),
            )
        }),
{
    let rest = recheck_destroyed_spec(m, m.destroyed, m.destroyed.len() as int).0;
    let m2 = AppModel { destroyed: rest, ..m };
    lemma_recheck_leaves_blocked(m, m.destroyed, m.destroyed.len() as int);
    assert forall|j: int| 0 <= j < rest.len() implies !restorable(m2, #[trigger] rest[j]) by {
        assert(!restorable(m, rest[j]));
    }
    lemma_recheck_all_blocked(m2, rest, rest.len() as int);
}

/// Whether none of `acts` destroys a link.
pub open spec fn destroys_none(acts: Seq<ActionModel>) -> bool {
    forall|i: int| 0 <= i < acts.len() ==> !(#[trigger] acts[i] is Destroy)
}

/// Whether none of `acts` destroys or spares a link.
pub open spec fn blocks_none(acts: Seq<ActionModel>) -> bool {
    forall|i: int| 0 <= i < acts.len() ==> !(#[trigger] acts[i] is Destroy) && !(acts[i] is Spare)
}

proof fn lemma_existing_cuts_none(m: AppModel, keys: Seq<u32>)
    ensures
        m.log_only ==> destroys_none(recheck_existing_spec(m, keys)),
        m.unlink.len() == 0 ==> blocks_none(recheck_existing_spec(m, keys)),
    decreases keys.len(),
{
    if keys.len() > 0 {
        lemma_existing_cuts_none(m, keys.drop_last());
        let front = recheck_existing_spec(m, keys.drop_last());
        let object = m.objects[keys.last()];
        let back = if object.kind == ObjectKind::Link {
            judge_spec(m, object)
        } else {
            seq![]
        };
        assert(recheck_existing_spec(m, keys) == front + back);
        assert forall|i: int| 0 <= i < (front + back).len() implies (m.log_only ==> !((front
            + back)[i] is Destroy)) && (m.unlink.len() == 0 ==> !((front + back)[i] is Destroy)
            && !((front + back)[i] is Spare)) by {
            if i >= front.len() {
                assert((front + back)[i] == back[i - front.len()]);
            }
        }
    }
}

/// With `log_only` set, nothing is ever cut: a recheck restores every
/// recorded link and destroys none.
pub proof fn law_log_only_cuts_nothing(m: AppModel, keys: Seq<u32>)
    requires
        m.log_only,
    ensures
        recheck_spec(m, keys).0.destroyed.len() == 0,
        destroys_none(recheck_spec(m, keys).1),
{
    lemma_recheck_restores_all(m, m.destroyed);
    let (rest, restores) = recheck_destroyed_spec(m, m.destroyed, m.destroyed.len() as int);
    let m2 = AppModel { destroyed: rest, ..m };
    lemma_existing_cuts_none(m2, keys);
    let existing = recheck_existing_spec(m2, keys);
    lemma_restores_only(m, m.destroyed);
    assert forall|i: int| 0 <= i < (restores + existing).len() implies !(#[trigger] (restores
        + existing)[i] is Destroy) by {
        if i >= restores.len() {
            assert((restores + existing)[i] == existing[i - restores.len()]);
        } else {
            assert((restores + existing)[i] == restores[i]);
        }
    }
}

/// Without filters nothing is blocked: a recheck restores every recorded
/// link and neither destroys nor spares any. (Shutting down drops the
/// filters for this.)
pub proof fn law_no_filters_block_nothing(m: AppModel, keys: Seq<u32>)
    requires
        m.unlink.len() == 0,
    ensures
        recheck_spec(m, keys).0.destroyed.len() == 0,
        blocks_none(recheck_spec(m, keys).1),
{
    lemma_recheck_restores_all(m, m.destroyed);
    let (rest, restores) = recheck_destroyed_spec(m, m.destroyed, m.destroyed.len() as int);
    let m2 = AppModel { destroyed: rest, ..m };
    lemma_existing_cuts_none(m2, keys);
    let existing = recheck_existing_spec(m2, keys);
    lemma_restores_only(m, m.destroyed);
    assert forall|i: int| 0 <= i < (restores + existing).len() implies !(#[trigger] (restores
        + existing)[i] is Destroy) && !((restores + existing)[i] is Spare) by {
        if i >= restores.len() {
            assert((restores + existing)[i] == existing[i - restores.len()]);
        } else {
            assert((restores + existing)[i] == restores[i]);
        }
    }
}

proof fn lemma_restores_only(m: AppModel, d: Seq<LinkModel>)
    ensures
        forall|i: int| 0 <= i < restores_reversed(m, d).len() ==> #[trigger] restores_reversed(
            m,
            d,
        )[i] is Restore,
    decreases d.len(),
{
    if d.len() > 0 {
        lemma_restores_only(m, d.drop_last());
        let r = restores_reversed(m, d);
        assert forall|i: int| 0 <= i < r.len() implies #[trigger] r[i] is Restore by {
            if i > 0 {
                assert(r[i] == restores_reversed(m, d.drop_last())[i - 1]);
            }
        }
    }
}

/// Whether a destroyed link touches port `port`.
pub open spec fn touches_port(l: LinkModel, port: u32) -> bool {
    l.output_port == port || l.input_port == port
}

/// The state after the known object `id` is removed: it leaves the table,
/// and when it was a port, the recorded links through it are forgotten.
pub open spec fn after_remove(m: AppModel, id: u32) -> AppModel {
    AppModel {
        objects: m.objects.remove(id),
        destroyed: if m.objects[id].kind == ObjectKind::Port {
            m.destroyed.filter(|l: LinkModel| !touches_port(l, id))
        } else {
            m.destroyed
        },
        ..m
    }
}

/// When a port is removed, no recorded cut link goes through it any more, at
/// its output end or at its input end, and every recorded link that does not
/// go through it stays recorded.
pub proof fn law_port_removal_forgets(m: AppModel, port: u32)
    requires
        m.objects.contains_key(port),
        m.objects[port].kind == ObjectKind::Port,
    ensures
        forall|j: int|
            0 <= j < after_remove(m, port).destroyed.len() ==> (#[trigger] after_remove(
                m,
                port,
            ).destroyed[j]).output_port != port && after_remove(m, port).destroyed[j].input_port
                != port,
        forall|j: int|
            0 <= j < m.destroyed.len() && m.destroyed[j].output_port != port
                && m.destroyed[j].input_port != port ==> after_remove(m, port).destroyed.contains(
                #[trigger] m.destroyed[j],
            ),
        after_remove(m, port).destroyed.len() <= m.destroyed.len(),
{
    broadcast use vstd::seq_lib::group_filter_ensures;

    let pred = |l: LinkModel| !touches_port(l, port);
    assert(after_remove(m, port).destroyed == m.destroyed.filter(pred));
}

impl App {
    /// Whether the object table is consistent: each object filed under its id.
    pub closed spec fn wf(&self) -> bool {
        objects_wf(self@.objects)
    }

    /// A daemon with the given configuration that knows no objects yet.
    pub fn new(config: Config) -> (res: Self)
        ensures
            res.wf(),
            res@ == (AppModel {
                log_only: config@.log_only,
                unlink: config@.unlink,
                objects: Map::empty(),
                destroyed: seq![],
                shutdown_seq: None,
            }),
    {
        let res = App {
            config,
            objects: HashMap::new(),
            destroyed_links: Vec::new(),
            shutdown_seq: None,
        };
        assert(res@.objects =~= Map::empty());
        assert(res@.destroyed =~= seq![]);
        res
    }

    /// Whether the daemon is shutting down (it has started the final sync).
    pub fn is_shutting_down(&self) -> (res: bool)
        ensures
            res == self@.shutdown_seq is Some,
    {
        self.shutdown_seq.is_some()
    }

    /// The links that were cut and not yet restored or forgotten.
    pub fn destroyed_links(&self) -> (res: &Vec<Link>)
        ensures
            links_model(res@) == self@.destroyed,
    {
        &self.destroyed_links
    }

    /// The name of node `id`, empty when the node is unknown.
    pub fn label_by_id(&self, id: u32) -> (res: String)
        ensures
            res@ == node_label(self@.objects, id),
    {
        match self.objects.get(&id) {
            Some(object) => label(object),
            None => String::new(),
        }
    }

    /// Whether no filter of the configuration matches a link between nodes
    /// with these names.
    pub fn link_is_allowed_by_name(&self, output_name: &str, input_name: &str) -> (res: bool)
        ensures
            res == allowed_spec(self@.unlink, output_name@, input_name@),
    {
        let context = Context { output_name, input_name };
        let mut i: usize = 0;
        while i < self.config.unlink.len()
            invariant
                i <= self.config.unlink@.len(),
                context.output_name@ == output_name@,
                context.input_name@ == input_name@,
                forall|k: int|
                    0 <= k < i ==> !eval_model(
                        #[trigger] exprs_model(self.config.unlink@)[k],
                        output_name@,
                        input_name@,
                    ),
            decreases self.config.unlink@.len() - i,
        {
            if self.config.unlink[i].eval(&context) {
                assert(exprs_model(self.config.unlink@)[i as int] == self.config.unlink@[i as int]@);
                return false;
            }
            i = i + 1;
        }
        true
    }

    /// Whether no filter matches a link between nodes `output_node` and `input_node`.
    pub fn link_is_allowed_by_id(&self, output_node: u32, input_node: u32) -> (res: bool)
        ensures
            res == allowed_spec(
                self@.unlink,
                node_label(self@.objects, output_node),
                node_label(self@.objects, input_node),
            ),
    {
        let output_name = self.label_by_id(output_node);
        let input_name = self.label_by_id(input_node);
        self.link_is_allowed_by_name(output_name.as_str(), input_name.as_str())
    }

    /// The actions for an object of the link type.
    fn judge(&self, object: &ObjectInfo) -> (actions: Vec<Action>)
        ensures
            actions_model(actions@) == judge_spec(self@, object@),
    {
        let mut actions: Vec<Action> = Vec::new();
        match Link::from_object(object) {
            Err(e) => {
                actions.push(Action::Malformed(e));
            },
            Ok(link) => {
                let output = self.objects.get(&link.output_node());
                let input = self.objects.get(&link.input_node());
                match (output, input) {
                    (Some(output), Some(input)) => {
                        let output_name = label(output);
                        let input_name = label(input);
                        let allowed = self.link_is_allowed_by_name(
                            output_name.as_str(),
                            input_name.as_str(),
                        );
                        actions.push(Action::Verdict { output_name, input_name, allowed });
                        if !allowed {
                            if self.config.log_only {
                                actions.push(Action::Spare(link));
                            } else {
                                actions.push(Action::Destroy(link));
                            }
                        }
                    },
                    (None, _) => {
                        let node = link.output_node();
                        actions.push(Action::MissingNode { link, node, end: Port::Output });
                    },
                    (Some(_), None) => {
                        let node = link.input_node();
                        actions.push(Action::MissingNode { link, node, end: Port::Input });
                    },
                }
            },
        }
        assert(actions_model(actions@) =~= judge_spec(self@, object@));
        actions
    }

    /// A new registry object was announced. It is recorded; an object of the
    /// link type is then judged. Nothing happens while shutting down.
    pub fn on_global(&mut self, object: ObjectInfo) -> (actions: Vec<Action>)
        requires
            old(self).wf(),
        ensures
            final(self).wf(),
            old(self)@.shutdown_seq is Some ==> final(self)@ == old(self)@ && actions@.len() == 0,
            old(self)@.shutdown_seq is None ==> {
                &&& final(self)@ == (AppModel {
                    objects: old(self)@.objects.insert(object@.id, object@),
                    ..old(self)@
                })
                &&& actions_model(actions@) == if object@.kind == ObjectKind::Link {
                    judge_spec(final(self)@, object@)
                } else {
                    seq![]
                }
            },
    {
        if self.shutdown_seq.is_some() {
            return Vec::new();
        }
        let id = object.id;
        let is_link = object.kind == ObjectKind::Link;
        let ghost object_model = object@;
        self.objects.insert(id, object);
        assert(self@.objects =~= old(self)@.objects.insert(object_model.id, object_model));
        if !is_link {
            return Vec::new();
        }
        let stored = self.objects.get(&id).unwrap();
        self.judge(stored)
    }

    /// A registry object was removed. It is forgotten; when it was a port,
    /// so are the cut links that used it. Nothing happens while shutting
    /// down. Returns whether the object was known (always `true` while
    /// shutting down).
    pub fn on_global_remove(&mut self, id: u32) -> (known: bool)
        requires
            old(self).wf(),
        ensures
            final(self).wf(),
            old(self)@.shutdown_seq is Some ==> final(self)@ == old(self)@ && known,
            old(self)@.shutdown_seq is None ==> {
                &&& known == old(self)@.objects.contains_key(id)
                &&& !known ==> final(self)@ == old(self)@
                &&& known ==> final(self)@ == after_remove(old(self)@, id)
            },
    {
        if self.shutdown_seq.is_some() {
            return true;
        }
        let ghost m = self@;
        match self.objects.remove(&id) {
            None => {
                assert(self@ =~= m);
                false
            },
            Some(object) => {
                assert(self@.objects =~= m.objects.remove(id));
                assert(m.objects.contains_key(id));
                assert(m.objects[id] == object@);
                assert(object.id == id);
                if object.kind == ObjectKind::Port {
                    self.forget_links_with_port(object.id);
                }
                assert(self@ =~= after_remove(m, id));
                true
            },
        }
    }

    /// Forgets the recorded links that use port `port`, keeping the others in order.
    fn forget_links_with_port(&mut self, port: u32)
        ensures
            final(self)@ == (AppModel {
                destroyed: old(self)@.destroyed.filter(|l: LinkModel| !touches_port(l, port)),
                ..old(self)@
            }),
    {
        let ghost d = old(self)@.destroyed;
        let ghost pred = |l: LinkModel| !touches_port(l, port);
        let mut kept: Vec<Link> = Vec::new();
        let mut i: usize = 0;
        while i < self.destroyed_links.len()
            invariant
                d == links_model(self.destroyed_links@),
                pred == (|l: LinkModel| !touches_port(l, port)),
                i <= d.len(),
                links_model(kept@) == d.subrange(0, i as int).filter(pred),
            decreases d.len() - i,
        {
            let link = self.destroyed_links[i];
            proof {
                reveal(Seq::filter);
                let next = d.subrange(0, i + 1);
                assert(next.drop_last() =~= d.subrange(0, i as int));
                assert(next.last() == link@);
                assert(next.filter(pred) == if pred(link@) {
                    d.subrange(0, i as int).filter(pred).push(link@)
                } else {
                    d.subrange(0, i as int).filter(pred)
                });
            }
            let ghost old_kept = links_model(kept@);
            if !link.contains_port(port) {
                kept.push(link);
                assert(pred(link@));
                assert(links_model(kept@) =~= old_kept.push(link@));
            } else {
                assert(!pred(link@));
            }
            assert(links_model(kept@) == d.subrange(0, i + 1).filter(pred));
            i = i + 1;
        }
        assert(d.subrange(0, d.len() as int) =~= d);
        self.destroyed_links = kept;
        assert(self@ =~= (AppModel { destroyed: d.filter(pred), ..old(self)@ }));
    }

    /// Goes through the recorded links from the last to the first, restoring
    /// (and forgetting) each one that may be restored. Afterwards every link
    /// still recorded is one that may not be restored, so that a second pass
    /// restores nothing (see `law_recheck_settles`).
    pub fn recheck_destroyed_links(&mut self) -> (actions: Vec<Action>)
        requires
            old(self).wf(),
        ensures
            final(self).wf(),
            ({
                let (rest, restores) = recheck_destroyed_spec(
                    old(self)@,
                    old(self)@.destroyed,
                    old(self)@.destroyed.len() as int,
                );
                &&& final(self)@ == (AppModel { destroyed: rest, ..old(self)@ })
                &&& actions_model(actions@) == restores
            }),
            forall|j: int|
                0 <= j < final(self)@.destroyed.len() ==> !restorable(
                    final(self)@,
                    #[trigger] final(self)@.destroyed[j],
                ),
    {
        let ghost m = self@;
        let mut actions: Vec<Action> = Vec::new();
        let mut i = self.destroyed_links.len();
        while i > 0
            invariant
                self.wf(),
                self@ == (AppModel { destroyed: self@.destroyed, ..m }),
                i <= self@.destroyed.len(),
                recheck_destroyed_spec(m, m.destroyed, m.destroyed.len() as int) == ({
                    let (rest, restores) = recheck_destroyed_spec(m, self@.destroyed, i as int);
                    (rest, actions_model(actions@) + restores)
                }),
            decreases i,
        {
            i = i - 1;
            let link = self.destroyed_links[i];
            let ghost d = self@.destroyed;
            assert(d[i as int] == link@);
            let allowed = self.link_is_allowed_by_id(link.output_node(), link.input_node());
            if allowed || self.config.log_only {
                let output_name = self.label_by_id(link.output_node());
                let input_name = self.label_by_id(link.input_node());
                let ghost old_actions = actions_model(actions@);
                actions.push(Action::Restore { link, output_name, input_name });
                assert(actions_model(actions@) =~= old_actions.push(restore_action(m, link@)));
                self.destroyed_links.swap_remove(i);
                assert(self@.destroyed =~= swap_remove(d, i as int));
                assert(self@ =~= (AppModel { destroyed: self@.destroyed, ..m }));
                proof {
                    let (rest, restores) = recheck_destroyed_spec(m, self@.destroyed, i as int);
                    assert(old_actions + (seq![restore_action(m, link@)] + restores) =~= old_actions.push(
                        restore_action(m, link@),
                    ) + restores);
                }
            }
        }
        let ghost (rest, restores) = recheck_destroyed_spec(m, self@.destroyed, 0);
        assert(actions_model(actions@) + restores =~= actions_model(actions@));
        proof {
            lemma_recheck_leaves_blocked(m, m.destroyed, m.destroyed.len() as int);
            assert forall|j: int| 0 <= j < self@.destroyed.len() implies !restorable(
                self@,
                #[trigger] self@.destroyed[j],
            ) by {
                assert(!restorable(m, self@.destroyed[j]));
            }
        }
        actions
    }

    /// Judges again every object of the link type, in the table's walking order.
    fn recheck_existing_links(&self) -> (actions: Vec<Action>)
        requires
            self.wf(),
        ensures
            exists|keys: Seq<u32>|
                walk_order(keys, self@.objects) && actions_model(actions@)
                    == #[trigger] recheck_existing_spec(self@, keys),
    {
        let ghost m = self@;
        let mut actions: Vec<Action> = Vec::new();
        let ghost all_keys = vstd::std_specs::hash::spec_keys_iter(&self.objects).remaining().unref();
        for k in it: self.objects.keys()
            invariant
                m == self@,
                self.wf(),
                it.seq().unref() == all_keys,
                actions_model(actions@) == recheck_existing_spec(
                    m,
                    it.seq().unref().take(it.index() as int),
                ),
        {
            let ghost keys = it.seq().unref();
            let ghost idx = it.index();
            assert(keys.take(idx + 1).drop_last() =~= keys.take(idx as int));
            let object = self.objects.get(k).unwrap();
            if object.kind == ObjectKind::Link {
                let mut judged = self.judge(object);
                let ghost old_actions = actions_model(actions@);
                let ghost judged_model = actions_model(judged@);
                actions.append(&mut judged);
                assert(actions_model(actions@) =~= old_actions + judged_model);
            }
        }
        assert(all_keys.take(all_keys.len() as int) =~= all_keys);
        proof {
            let r = vstd::std_specs::hash::spec_keys_iter(&self.objects).remaining();
            assert(r.no_duplicates());
            assert forall|a: int, b: int|
                0 <= a < all_keys.len() && 0 <= b < all_keys.len() && a != b implies all_keys[a]
                != all_keys[b] by {
                assert(all_keys[a] == *r[a]);
                assert(all_keys[b] == *r[b]);
            }
            assert(all_keys.to_set() =~= m.objects.dom());
        }
        actions
    }

    /// Checks everything again: restores the recorded links that may be
    /// restored, then judges every link object anew.
    fn recheck(&mut self) -> (actions: Vec<Action>)
        requires
            old(self).wf(),
        ensures
            final(self).wf(),
            exists|keys: Seq<u32>|
                walk_order(keys, old(self)@.objects) && (final(self)@, actions_model(actions@))
                    == #[trigger] recheck_spec(old(self)@, keys),
    {
        let mut actions = self.recheck_destroyed_links();
        let mut judged = self.recheck_existing_links();
        let ghost restores = actions_model(actions@);
        let ghost judged_model = actions_model(judged@);
        let ghost keys = choose|keys: Seq<u32>|
            walk_order(keys, self@.objects) && judged_model == #[trigger] recheck_existing_spec(
                self@,
                keys,
            );
        actions.append(&mut judged);
        assert(actions_model(actions@) =~= restores + judged_model);
        assert((self@, actions_model(actions@)) == recheck_spec(old(self)@, keys));
        actions
    }

    /// A new configuration was loaded. It replaces the old one and everything
    /// is checked again. Nothing happens while shutting down.
    pub fn on_config(&mut self, config: Config) -> (actions: Vec<Action>)
        requires
            old(self).wf(),
        ensures
            final(self).wf(),
            old(self)@.shutdown_seq is Some ==> final(self)@ == old(self)@ && actions@.len() == 0,
            old(self)@.shutdown_seq is None ==> exists|keys: Seq<u32>|
                walk_order(keys, old(self)@.objects) && (final(self)@, actions_model(actions@))
                    == #[trigger] recheck_spec(with_config(old(self)@, config@), keys),
    {
        if self.shutdown_seq.is_some() {
            return Vec::new();
        }
        self.config = config;
        assert(self@ =~= with_config(old(self)@, config@));
        self.recheck()
    }

    /// The daemon was asked to stop. The filters are dropped, so that every
    /// cut link is restored (the last cut first) and every link object is
    /// judged allowed; then the final sync is requested. Asking again while
    /// shutting down does nothing.
    pub fn on_shutdown(&mut self, signal: Shutdown) -> (actions: Vec<Action>)
        requires
            old(self).wf(),
        ensures
            final(self).wf(),
            old(self)@.shutdown_seq is Some ==> final(self)@ == old(self)@ && actions@.len() == 0,
            old(self)@.shutdown_seq is None ==> {
                let cleared = AppModel { unlink: seq![], ..old(self)@ };
                &&& final(self)@ == (AppModel { unlink: seq![], destroyed: seq![], ..old(self)@ })
                &&& exists|keys: Seq<u32>|
                    walk_order(keys, old(self)@.objects) && actions_model(actions@)
                        == restores_reversed(cleared, old(self)@.destroyed)
                        + #[trigger] recheck_existing_spec(final(self)@, keys) + seq![
                        ActionModel::Sync,
                    ]
            },
    {
        if self.shutdown_seq.is_some() {
            return Vec::new();
        }
        self.config.unlink = Vec::new();
        let ghost cleared = self@;
        assert(cleared =~= (AppModel { unlink: seq![], ..old(self)@ }));
        proof {
            lemma_recheck_restores_all(cleared, cleared.destroyed);
        }
        let mut actions = self.recheck();
        let ghost before_sync = actions_model(actions@);
        actions.push(Action::Sync);
        assert(actions_model(actions@) =~= before_sync.push(ActionModel::Sync));
        proof {
            let keys = choose|keys: Seq<u32>|
                walk_order(keys, cleared.objects) && (self@, before_sync) == #[trigger] recheck_spec(
                    cleared,
                    keys,
                );
            assert(self@ =~= (AppModel { unlink: seq![], destroyed: seq![], ..old(self)@ }));
            assert(actions_model(actions@) =~= restores_reversed(cleared, old(self)@.destroyed)
                + recheck_existing_spec(self@, keys) + seq![ActionModel::Sync]);
        }
        actions
    }

    /// The destruction of a cut link succeeded: it is recorded, to be
    /// restored later.
    pub fn link_destroyed(&mut self, link: Link)
        requires
            old(self).wf(),
        ensures
            final(self).wf(),
            final(self)@ == (AppModel { destroyed: old(self)@.destroyed.push(link@), ..old(self)@ }),
    {
        self.destroyed_links.push(link);
        assert(self@ =~= (AppModel { destroyed: old(self)@.destroyed.push(link@), ..old(self)@ }));
    }

    /// The final sync was requested; its completion will end the daemon.
    pub fn sync_started(&mut self, seq: i32)
        requires
            old(self).wf(),
        ensures
            final(self).wf(),
            final(self)@ == (AppModel { shutdown_seq: Some(seq), ..old(self)@ }),
    {
        self.shutdown_seq = Some(seq);
        assert(self@ =~= (AppModel { shutdown_seq: Some(seq), ..old(self)@ }));
    }

    /// The core reported that it processed request `seq` of object `id`.
    /// Returns whether that was the final sync, after which the daemon stops.
    pub fn on_done(&self, id: u32, seq: i32) -> (quit: bool)
        ensures
            quit == (id == CORE_ID && self@.shutdown_seq == Some(seq)),
    {
        id == CORE_ID && self.shutdown_seq == Some(seq)
    }
}

} // verus!
