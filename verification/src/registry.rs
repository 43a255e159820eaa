//! The process registry: the authoritative set of followed pods, grouped by
//! identity `(namespace, name)`, with the derived display metrics `padding`
//! and `print_namespace`.
//!
//! The registry never talks to the cluster itself: discovery hands it plain
//! pod descriptors (name, namespace, phase), it decides which pods to track,
//! assigns each new pod a color, and keeps the derived metrics consistent
//! after every insert and remove.

use vstd::prelude::*;

use crate::color::{remove_first_color, Colors, Hsl};
use crate::matching::{regex_match, Matcher};
use crate::text::str_eq;

verus! {

/// What the external listing reports about one pod: its name and phase as
/// the cluster gave them (either may be missing), and the namespace the
/// listing was made in.
#[derive(Debug)]
pub struct PodDescriptor {
    pub name: Option<String>,
    pub namespace: String,
    pub phase: Option<String>,
}

/// The name under which a pod is tracked: the reported name, or a fixed
/// placeholder when the cluster reported none.
pub open spec fn spec_pod_name(pod: &PodDescriptor) -> Seq<char> {
    match pod.name {
        Some(n) => n@,
        None => "NO_NAME"@,
    }
}

/// Whether the descriptor reports a running pod: its phase is present and
/// reads `Running`.
pub open spec fn spec_pod_running(pod: &PodDescriptor) -> bool {
    pod.phase matches Some(p) && p@ == "Running"@
}

/// The name under which the pod is tracked.
pub fn get_pod_name(pod: &PodDescriptor) -> (r: String)
    ensures
        r@ == spec_pod_name(pod),
{
    match &pod.name {
        Some(n) => n.clone(),
        None => String::from_str("NO_NAME"),
    }
}

/// The reported phase, if the cluster gave one.
pub fn get_pod_status(pod: &PodDescriptor) -> (r: Option<&String>)
    ensures
        r is Some <==> pod.phase is Some,
        r matches Some(p) ==> pod.phase matches Some(q) && p == q,
{
    match &pod.phase {
        Some(p) => Some(p),
        None => None,
    }
}

/// Whether the descriptor reports a running pod.
pub fn is_pod_running(pod: &PodDescriptor) -> (b: bool)
    ensures
        b == spec_pod_running(pod),
{
    match get_pod_status(pod) {
        Some(phase) => str_eq(phase.as_str(), "Running"),
        None => false,
    }
}

/// One followed pod: its identity `(namespace, name)` and the color it owns
/// while active.
#[derive(Debug)]
pub struct Pod {
    pub name: String,
    pub namespace: String,
    pub color: Hsl,
}

impl Clone for Pod {
    fn clone(&self) -> (r: Self)
        ensures
            r.name@ == self.name@,
            r.namespace@ == self.namespace@,
            r.color == self.color,
    {
        Pod { name: self.name.clone(), namespace: self.namespace.clone(), color: self.color }
    }
}

impl Pod {
    /// The identity by which equality and set membership are defined.
    pub open spec fn spec_id(&self) -> (Seq<char>, Seq<char>) {
        (self.namespace@, self.name@)
    }
}

impl PartialEq for Pod {
    fn eq(&self, other: &Self) -> (r: bool) {
        self.name == other.name && self.namespace == other.namespace
    }
}

impl vstd::std_specs::cmp::PartialEqSpecImpl for Pod {
    open spec fn obeys_eq_spec() -> bool {
        true
    }

    open spec fn eq_spec(&self, other: &Pod) -> bool {
        self.name@ == other.name@ && self.namespace@ == other.namespace@
    }
}

impl Eq for Pod {}

/// Whether some tracked pod has the identity `id`.
pub open spec fn contains_id(items: Seq<Pod>, id: (Seq<char>, Seq<char>)) -> bool {
    exists|i: int| 0 <= i < items.len() && (#[trigger] items[i]).spec_id() == id
}

/// No two tracked pods share an identity.
pub open spec fn unique_ids(items: Seq<Pod>) -> bool {
    forall|i: int, j: int|
        0 <= i < j < items.len() ==> (#[trigger] items[i]).spec_id() != (
        #[trigger] items[j]).spec_id()
}

/// `items` with the first pod of identity `id` removed, if there is one.
pub open spec fn remove_id(items: Seq<Pod>, id: (Seq<char>, Seq<char>)) -> Seq<Pod>
    decreases items.len(),
{
    if items.len() == 0 {
        items
    } else if items[0].spec_id() == id {
        items.drop_first()
    } else {
        seq![items[0]] + remove_id(items.drop_first(), id)
    }
}

/// Whether more than one distinct namespace is currently represented.
pub open spec fn spec_show_namespace(items: Seq<Pod>) -> bool {
    exists|i: int, j: int|
        0 <= i < items.len() && 0 <= j < items.len() && (#[trigger] items[i]).namespace@ != (
        #[trigger] items[j]).namespace@
}

/// The column width one pod's prefix needs: the name, plus the namespace and
/// its separator when namespaces are shown.
pub open spec fn pod_width(p: Pod, show: bool) -> nat {
    p.name@.len() + if show {
        p.namespace@.len() + 1
    } else {
        0
    }
}

/// The width of the widest prefix among the tracked pods.
pub open spec fn max_width(items: Seq<Pod>, show: bool) -> nat
    decreases items.len(),
{
    if items.len() == 0 {
        0
    } else {
        let rest = max_width(items.drop_last(), show);
        let w = pod_width(items.last(), show);
        if w > rest {
            w
        } else {
            rest
        }
    }
}

/// The padding the registry maintains: the widest prefix, namespaces counted
/// exactly when more than one is represented.
pub open spec fn spec_padding(items: Seq<Pod>) -> nat {
    max_width(items, spec_show_namespace(items))
}

/// `spec_padding`, held to what a machine word can store.
pub open spec fn spec_padding_capped(items: Seq<Pod>) -> nat {
    if spec_padding(items) > usize::MAX {
        usize::MAX as nat
    } else {
        spec_padding(items)
    }
}

/// Removing one identity leaves an identity that was removed absent
/// (identities are unique).
proof fn lemma_remove_id_not_contains(items: Seq<Pod>, id: (Seq<char>, Seq<char>))
    requires
        unique_ids(items),
    ensures
        !contains_id(remove_id(items, id), id),
    decreases items.len(),
{
    if items.len() > 0 {
        assert forall|i: int, j: int|
            0 <= i < j < items.drop_first().len() implies (
        #[trigger] items.drop_first()[i]).spec_id() != (
        #[trigger] items.drop_first()[j]).spec_id() by {
            assert(items.drop_first()[i] == items[i + 1]);
            assert(items.drop_first()[j] == items[j + 1]);
        }
        if items[0].spec_id() == id {
            if contains_id(items.drop_first(), id) {
                let rest = items.drop_first();
                let w = choose|w: int| 0 <= w < rest.len() && (#[trigger] rest[w]).spec_id() == id;
                assert(items[w + 1].spec_id() == items[0].spec_id());
                assert(false);
            }
        } else {
            lemma_remove_id_not_contains(items.drop_first(), id);
            let r = remove_id(items, id);
            let rr = remove_id(items.drop_first(), id);
            assert forall|k: int| 0 <= k < r.len() implies (#[trigger] r[k]).spec_id() != id by {
                if k == 0 {
                    assert(r[0] == items[0]);
                } else {
                    assert(r[k] == rr[k - 1]);
                    assert(!((rr[k - 1]).spec_id() == id));
                }
            }
        }
    }
}

/// Removing an absent identity changes nothing.
proof fn lemma_remove_id_absent(items: Seq<Pod>, id: (Seq<char>, Seq<char>))
    requires
        !contains_id(items, id),
    ensures
        remove_id(items, id) == items,
    decreases items.len(),
{
    if items.len() > 0 {
        assert(items[0].spec_id() != id);
        assert forall|j: int|
            0 <= j < items.drop_first().len() implies (
        #[trigger] items.drop_first()[j]).spec_id() != id by {
            assert(items.drop_first()[j] == items[j + 1]);
        }
        lemma_remove_id_absent(items.drop_first(), id);
        assert(remove_id(items, id) =~= items);
    }
}

/// Removing the first pod of identity `id`, located at `i`, is removing
/// index `i`.
proof fn lemma_remove_id_at(items: Seq<Pod>, id: (Seq<char>, Seq<char>), i: int)
    requires
        0 <= i < items.len(),
        items[i].spec_id() == id,
        forall|j: int| 0 <= j < i ==> (#[trigger] items[j]).spec_id() != id,
    ensures
        remove_id(items, id) == items.remove(i),
    decreases i,
{
    if i == 0 {
        assert(remove_id(items, id) =~= items.remove(0));
    } else {
        assert(items.drop_first()[i - 1].spec_id() == id);
        assert forall|j: int|
            0 <= j < i - 1 implies (#[trigger] items.drop_first()[j]).spec_id() != id by {
            assert(items.drop_first()[j] == items[j + 1]);
        }
        lemma_remove_id_at(items.drop_first(), id, i - 1);
        assert(remove_id(items, id) =~= items.remove(i));
    }
}

/// Law (idempotence): removing the same identity twice leaves the tracked
/// set exactly as removing it once does.
pub proof fn lemma_remove_idempotent(items: Seq<Pod>, id: (Seq<char>, Seq<char>))
    requires
        unique_ids(items),
    ensures
        remove_id(remove_id(items, id), id) == remove_id(items, id),
{
    lemma_remove_id_not_contains(items, id);
    lemma_remove_id_absent(remove_id(items, id), id);
}

/// Law (fault isolation at the registry): removing one pod leaves every pod
/// of a different identity tracked.
pub proof fn lemma_remove_preserves_others(
    items: Seq<Pod>,
    id: (Seq<char>, Seq<char>),
    other: (Seq<char>, Seq<char>),
)
    requires
        other != id,
        contains_id(items, other),
    ensures
        contains_id(remove_id(items, id), other),
    decreases items.len(),
{
    let w = choose|w: int| 0 <= w < items.len() && (#[trigger] items[w]).spec_id() == other;
    if items[0].spec_id() == id {
        assert(w != 0);
        assert(items.drop_first()[w - 1].spec_id() == other);
        assert(contains_id(remove_id(items, id), other));
    } else {
        let r = remove_id(items, id);
        let rr = remove_id(items.drop_first(), id);
        if w == 0 {
            assert(r[0].spec_id() == other);
        } else {
            assert(items.drop_first()[w - 1].spec_id() == other);
            lemma_remove_preserves_others(items.drop_first(), id, other);
            let v = choose|v: int| 0 <= v < rr.len() && (#[trigger] rr[v]).spec_id() == other;
            assert(r[v + 1] == rr[v]);
            assert(contains_id(r, other));
        }
    }
}

/// Tracked pods only grow by appending: whatever identity was tracked stays
/// tracked.
proof fn lemma_contains_id_push(items: Seq<Pod>, id: (Seq<char>, Seq<char>), p: Pod)
    requires
        contains_id(items, id),
    ensures
        contains_id(items.push(p), id),
{
    let w = choose|w: int| 0 <= w < items.len() && (#[trigger] items[w]).spec_id() == id;
    assert(items.push(p)[w].spec_id() == id);
}

/// Whether a listed pod is taken up: it reports itself running and its name
/// matches the search.
pub open spec fn spec_eligible(d: &PodDescriptor, pattern: Seq<char>) -> bool {
    spec_pod_running(d) && regex_match(pattern, spec_pod_name(d))
}

/// The identities a reconciliation appends, in listing order: every eligible
/// entry whose identity is neither tracked already nor listed earlier.
pub open spec fn new_ids(
    listings: Seq<PodDescriptor>,
    pattern: Seq<char>,
    existing: Seq<Pod>,
) -> Seq<(Seq<char>, Seq<char>)>
    decreases listings.len(),
{
    if listings.len() == 0 {
        Seq::empty()
    } else {
        let rest = new_ids(listings.drop_last(), pattern, existing);
        let d = listings.last();
        let id = (d.namespace@, spec_pod_name(&d));
        if spec_eligible(&d, pattern) && !contains_id(existing, id) && !rest.contains(id) {
            rest.push(id)
        } else {
            rest
        }
    }
}

/// A pod set holds an identity exactly when its identity sequence does.
proof fn lemma_contains_id_map(items: Seq<Pod>, id: (Seq<char>, Seq<char>))
    ensures
        contains_id(items, id) <==> items.map_values(|p: Pod| p.spec_id()).contains(id),
{
    let ids = items.map_values(|p: Pod| p.spec_id());
    if contains_id(items, id) {
        let w = choose|w: int| 0 <= w < items.len() && (#[trigger] items[w]).spec_id() == id;
        assert(ids[w] == id);
    }
    if ids.contains(id) {
        let w = choose|w: int| 0 <= w < ids.len() && ids[w] == id;
        assert(items[w].spec_id() == id);
    }
}

/// An identity stands in a concatenation exactly when it stands in a part.
proof fn lemma_concat_contains<T>(a: Seq<T>, b: Seq<T>, x: T)
    ensures
        (a + b).contains(x) <==> a.contains(x) || b.contains(x),
{
    if a.contains(x) {
        let w = choose|w: int| 0 <= w < a.len() && a[w] == x;
        assert((a + b)[w] == x);
    }
    if b.contains(x) {
        let w = choose|w: int| 0 <= w < b.len() && b[w] == x;
        assert((a + b)[a.len() + w] == x);
    }
    if (a + b).contains(x) {
        let w = choose|w: int| 0 <= w < (a + b).len() && (a + b)[w] == x;
        if w < a.len() {
            assert(a[w] == x);
        } else {
            assert(b[w - a.len()] == x);
        }
    }
}

/// The widest prefix width bounds every pod's width and is attained by some
/// pod.
proof fn lemma_max_width_bounds(items: Seq<Pod>, show: bool)
    ensures
        forall|i: int|
            0 <= i < items.len() ==> pod_width(#[trigger] items[i], show) <= max_width(
                items,
                show,
            ),
        items.len() > 0 ==> exists|i: int|
            0 <= i < items.len() && pod_width(#[trigger] items[i], show) == max_width(items, show),
    decreases items.len(),
{
    if items.len() > 0 {
        lemma_max_width_bounds(items.drop_last(), show);
        assert forall|i: int|
            0 <= i < items.len() implies pod_width(#[trigger] items[i], show) <= max_width(
            items,
            show,
        ) by {
            if i < items.len() - 1 {
                assert(items.drop_last()[i] == items[i]);
            }
        }
        if max_width(items, show) == pod_width(items.last(), show) {
            assert(pod_width(items[items.len() - 1], show) == max_width(items, show));
        } else {
            assert(items.drop_last().len() > 0);
            let j = choose|j: int|
                0 <= j < items.drop_last().len() && pod_width(
                    #[trigger] items.drop_last()[j],
                    show,
                ) == max_width(items.drop_last(), show);
            assert(items.drop_last()[j] == items[j]);
            assert(pod_width(items[j], show) == max_width(items, show));
        }
    }
}

/// The registry: the tracked pods, the derived display metrics, the pod-name
/// matcher and the color allocator.
pub struct Pods {
    pub items: Vec<Pod>,
    pub padding: usize,
    pub print_namespace: bool,
    pub pod_search: Matcher,
    pub colors: Colors,
}

impl Pods {
    /// The registry's invariant: the allocator is consistent, identities are
    /// unique, and the derived metrics match the tracked set.
    pub open spec fn wf(&self) -> bool {
        &&& self.colors.wf()
        &&& unique_ids(self.items@)
        &&& self.print_namespace == spec_show_namespace(self.items@)
        &&& self.padding as nat == spec_padding_capped(self.items@)
    }

    /// Law: the padding is the maximum over the tracked pods of the name
    /// width, plus namespace and separator when namespaces are shown —
    /// whenever that maximum fits a machine word (it is capped there
    /// otherwise): no pod's prefix is wider, and some pod's prefix attains
    /// it. Every mutating call ensures `wf`, which carries this.
    pub proof fn lemma_padding_formula(pods: &Pods)
        requires
            pods.wf(),
            spec_padding(pods.items@) <= usize::MAX,
        ensures
            pods.padding as nat == max_width(pods.items@, pods.print_namespace),
            forall|i: int|
                0 <= i < pods.items@.len() ==> pod_width(
                    #[trigger] pods.items@[i],
                    pods.print_namespace,
                ) <= pods.padding,
            pods.items@.len() > 0 ==> exists|i: int|
                0 <= i < pods.items@.len() && pod_width(
                    #[trigger] pods.items@[i],
                    pods.print_namespace,
                ) == pods.padding,
    {
        lemma_max_width_bounds(pods.items@, pods.print_namespace);
    }

    /// Whether a pod of this name is already tracked in this namespace.
    pub fn pod_already_exists(&self, pod_name: &String, namespace: &String) -> (b: bool)
        ensures
            b == contains_id(self.items@, (namespace@, pod_name@)),
    {
        let mut i: usize = 0;
        while i < self.items.len()
            invariant
                0 <= i <= self.items@.len(),
                forall|j: int|
                    0 <= j < i ==> (#[trigger] self.items@[j]).spec_id() != (namespace@, pod_name@),
            decreases self.items@.len() - i,
        {
            let same_name = str_eq(self.items[i].name.as_str(), pod_name.as_str());
            let same_ns = str_eq(self.items[i].namespace.as_str(), namespace.as_str());
            if same_name && same_ns {
                return true;
            }
            i = i + 1;
        }
        false
    }

    /// Recomputes `print_namespace` and `padding` from the tracked set.
    fn set_global_fields(&mut self)
        ensures
            final(self).items@ == old(self).items@,
            final(self).pod_search == old(self).pod_search,
            final(self).colors == old(self).colors,
            final(self).print_namespace == spec_show_namespace(final(self).items@),
            final(self).padding as nat == spec_padding_capped(final(self).items@),
    {
        let ghost items = self.items@;
        let mut show = false;
        if self.items.len() > 0 {
            let mut i: usize = 1;
            while i < self.items.len()
                invariant
                    1 <= i <= self.items@.len(),
                    self.items@ == items,
                    items.len() > 0,
                    show == exists|j: int|
                        1 <= j < i && (#[trigger] items[j]).namespace@ != items[0].namespace@,
                decreases self.items@.len() - i,
            {
                let same = str_eq(
                    self.items[i].namespace.as_str(),
                    self.items[0].namespace.as_str(),
                );
                if !same {
                    show = true;
                }
                i = i + 1;
            }
        }
        proof {
            if show {
                let j = choose|j: int|
                    1 <= j < items.len() && (#[trigger] items[j]).namespace@
                        != items[0].namespace@;
                assert(spec_show_namespace(items));
            } else {
                if spec_show_namespace(items) {
                    let (i, j) = choose|i: int, j: int|
                        0 <= i < items.len() && 0 <= j < items.len() && (
                        #[trigger] items[i]).namespace@ != (#[trigger] items[j]).namespace@;
                    assert(items[i].namespace@ == items[0].namespace@);
                    assert(items[j].namespace@ == items[0].namespace@);
                    assert(false);
                }
            }
        }
        let mut max_len: usize = 0;
        let mut i: usize = 0;
        while i < self.items.len()
            invariant
                0 <= i <= self.items@.len(),
                self.items@ == items,
                max_len as nat == (if max_width(items.take(i as int), show) > usize::MAX {
                    usize::MAX as nat
                } else {
                    max_width(items.take(i as int), show)
                }),
            decreases self.items@.len() - i,
        {
            let p = &self.items[i];
            let mut w = p.name.as_str().unicode_len();
            if show {
                let nsl = p.namespace.as_str().unicode_len();
                if nsl <= usize::MAX - 1 && w <= usize::MAX - 1 - nsl {
                    w = w + nsl + 1;
                } else {
                    w = usize::MAX;
                }
            }
            proof {
                assert(w as nat == (if pod_width(items[i as int], show) > usize::MAX {
                    usize::MAX as nat
                } else {
                    pod_width(items[i as int], show)
                }));
            }
            if w > max_len {
                max_len = w;
            }
            i = i + 1;
            proof {
                assert(items.take(i as int).drop_last() =~= items.take(i as int - 1));
                assert(items.take(i as int).last() == items[i as int - 1]);
            }
        }
        proof {
            assert(items.take(items.len() as int) =~= items);
        }
        self.padding = max_len;
        self.print_namespace = show;
    }

    /// Builds the registry from an initial listing: exactly the matching,
    /// running pods are tracked, one per identity in listing order, each
    /// taking its color from the allocator (the pool first, newest release
    /// first), and the derived metrics are computed.
    pub fn new(pod_search: Matcher, colors: Colors, listings: &Vec<PodDescriptor>) -> (r: Pods)
        requires
            colors.wf(),
        ensures
            r.wf(),
            r.pod_search == pod_search,
            forall|k: int|
                0 <= k < r.items@.len() ==> {
                    let p = #[trigger] r.items@[k];
                    exists|d: int|
                        0 <= d < listings@.len() && spec_pod_name(&listings@[d]) == p.name@ && (
                        #[trigger] listings@[d]).namespace@ == p.namespace@ && spec_pod_running(
                            &listings@[d],
                        ) && regex_match(pod_search.pattern(), spec_pod_name(&listings@[d]))
                },
            forall|d: int|
                0 <= d < listings@.len() && spec_pod_running(&listings@[d]) && regex_match(
                    pod_search.pattern(),
                    spec_pod_name(&listings@[d]),
                ) ==> contains_id(
                    r.items@,
                    ((#[trigger] listings@[d]).namespace@, spec_pod_name(&listings@[d])),
                ),
            r.items@.map_values(|p: Pod| p.spec_id()) == new_ids(
                listings@,
                pod_search.pattern(),
                Seq::<Pod>::empty(),
            ),
            r.colors.spec_available().is_prefix_of(colors.spec_available()),
            r.colors.spec_used() == colors.spec_used() + r.items@.map_values(|p: Pod| p.color),
            r.items@.len() > 0 && colors.spec_available().len() > 0 ==> r.items@[0].color
                == colors.spec_available().last(),
    {
        let mut pods = Pods {
            items: Vec::new(),
            padding: 0,
            print_namespace: false,
            pod_search,
            colors,
        };
        proof {
            assert(pods.wf());
            assert(pods.items@.map_values(|p: Pod| p.spec_id()) =~= Seq::<
                (Seq<char>, Seq<char>),
            >::empty());
        }
        pods.refresh(listings);
        proof {
            assert(pods.items@.map_values(|p: Pod| p.spec_id()) =~= new_ids(
                listings@,
                pods.pod_search.pattern(),
                Seq::<Pod>::empty(),
            ));
            assert(pods.items@.skip(0) =~= pods.items@);
        }
        pods
    }

    /// Reconciles a fresh listing into the registry: every matching, running
    /// pod that is not yet tracked is appended with a color from the
    /// allocator — a recycled one while the pool lasts (the pool only ever
    /// shrinks here, and the first appended pod takes its most recently
    /// released color), a generated one after. Nothing is removed here
    /// (removal is the stream supervisor's, on stream end). The derived
    /// metrics are consistent when the call returns.
    pub fn refresh(&mut self, listings: &Vec<PodDescriptor>)
        requires
            old(self).wf(),
        ensures
            final(self).wf(),
            final(self).pod_search == old(self).pod_search,
            final(self).items@.len() >= old(self).items@.len(),
            final(self).items@.take(old(self).items@.len() as int) == old(self).items@,
            forall|k: int|
                old(self).items@.len() <= k < final(self).items@.len() ==> {
                    let p = #[trigger] final(self).items@[k];
                    &&& exists|d: int|
                        0 <= d < listings@.len() && spec_pod_name(&listings@[d]) == p.name@ && (
                        #[trigger] listings@[d]).namespace@ == p.namespace@ && spec_pod_running(
                            &listings@[d],
                        ) && regex_match(
                            old(self).pod_search.pattern(),
                            spec_pod_name(&listings@[d]),
                        )
                    &&& !contains_id(old(self).items@, p.spec_id())
                },
            forall|d: int|
                0 <= d < listings@.len() && spec_pod_running(&listings@[d]) && regex_match(
                    old(self).pod_search.pattern(),
                    spec_pod_name(&listings@[d]),
                ) ==> contains_id(
                    final(self).items@,
                    ((#[trigger] listings@[d]).namespace@, spec_pod_name(&listings@[d])),
                ),
            final(self).colors.spec_available().is_prefix_of(old(self).colors.spec_available()),
            final(self).colors.spec_used() == old(self).colors.spec_used()
                + final(self).items@.skip(old(self).items@.len() as int).map_values(
                |p: Pod| p.color,
            ),
            final(self).items@.len() > old(self).items@.len()
                && old(self).colors.spec_available().len() > 0
                ==> final(self).items@[old(self).items@.len() as int].color
                    == old(self).colors.spec_available().last(),
            final(self).items@.map_values(|p: Pod| p.spec_id()) == old(self).items@.map_values(
                |p: Pod| p.spec_id(),
            ) + new_ids(listings@, old(self).pod_search.pattern(), old(self).items@),
    {
        let ghost n0 = self.items@.len() as int;
        let ghost ids0 = old(self).items@.map_values(|p: Pod| p.spec_id());
        proof {
            assert(self.items@.map_values(|p: Pod| p.spec_id()) =~= ids0 + new_ids(
                listings@.take(0),
                old(self).pod_search.pattern(),
                old(self).items@,
            ));
        }
        let mut found_one = false;
        let mut d: usize = 0;
        while d < listings.len()
            invariant
                0 <= d <= listings@.len(),
                self.colors.wf(),
                unique_ids(self.items@),
                self.pod_search == old(self).pod_search,
                self.padding == old(self).padding,
                self.print_namespace == old(self).print_namespace,
                n0 == old(self).items@.len() as int,
                self.items@.len() >= old(self).items@.len(),
                self.items@.take(n0) == old(self).items@,
                old(self).wf(),
                !found_one ==> self.items@ == old(self).items@,
                self.items@.len() == n0 ==> self.colors == old(self).colors,
                self.colors.spec_available().is_prefix_of(old(self).colors.spec_available()),
                self.colors.spec_used() == old(self).colors.spec_used() + self.items@.skip(
                    n0,
                ).map_values(|p: Pod| p.color),
                self.items@.len() > n0 && old(self).colors.spec_available().len() > 0
                    ==> self.items@[n0].color == old(self).colors.spec_available().last(),
                forall|k: int|
                    n0 <= k < self.items@.len() ==> {
                        let p = #[trigger] self.items@[k];
                        &&& exists|dd: int|
                            0 <= dd < listings@.len() && spec_pod_name(&listings@[dd]) == p.name@
                                && (#[trigger] listings@[dd]).namespace@ == p.namespace@
                                && spec_pod_running(&listings@[dd]) && regex_match(
                                old(self).pod_search.pattern(),
                                spec_pod_name(&listings@[dd]),
                            )
                        &&& !contains_id(old(self).items@, p.spec_id())
                    },
                forall|dd: int|
                    0 <= dd < d && spec_pod_running(&listings@[dd]) && regex_match(
                        old(self).pod_search.pattern(),
                        spec_pod_name(&listings@[dd]),
                    ) ==> contains_id(
                        self.items@,
                        ((#[trigger] listings@[dd]).namespace@, spec_pod_name(&listings@[dd])),
                    ),
                ids0 == old(self).items@.map_values(|p: Pod| p.spec_id()),
                self.items@.map_values(|p: Pod| p.spec_id()) == ids0 + new_ids(
                    listings@.take(d as int),
                    old(self).pod_search.pattern(),
                    old(self).items@,
                ),
            decreases listings@.len() - d,
        {
            let desc = &listings[d];
            let name = get_pod_name(desc);
            let matched = self.pod_search.is_match(name.as_str());
            let running = is_pod_running(desc);
            let ghost pattern = old(self).pod_search.pattern();
            let ghost rest = new_ids(listings@.take(d as int), pattern, old(self).items@);
            let ghost nid = (listings@[d as int].namespace@, spec_pod_name(&listings@[d as int]));
            proof {
                assert(listings@.take(d as int + 1).drop_last() =~= listings@.take(d as int));
                assert(listings@.take(d as int + 1).last() == listings@[d as int]);
            }
            if matched && running {
                let exists_already = self.pod_already_exists(&name, &desc.namespace);
                if !exists_already {
                    proof {
                        lemma_contains_id_map(self.items@, nid);
                        lemma_concat_contains(rest, ids0, nid);
                        lemma_concat_contains(ids0, rest, nid);
                        lemma_contains_id_map(old(self).items@, nid);
                        assert(!rest.contains(nid));
                        assert(!contains_id(old(self).items@, nid));
                        assert(new_ids(listings@.take(d as int + 1), pattern, old(self).items@)
                            =~= rest.push(nid));
                    }
                    found_one = true;
                    let ghost colors_before = self.colors;
                    let color = self.colors.get_new_color();
                    let ghost before = self.items@;
                    let pod = Pod { name, namespace: desc.namespace.clone(), color };
                    self.items.push(pod);
                    proof {
                        if colors_before.spec_available().len() > 0 {
                            assert(self.colors.spec_available()
                                =~= old(self).colors.spec_available().subrange(
                                0,
                                self.colors.spec_available().len() as int,
                            ));
                        }
                        assert(self.colors.spec_used() =~= old(self).colors.spec_used()
                            + self.items@.skip(n0).map_values(|p: Pod| p.color)) by {
                            assert(self.items@.skip(n0) =~= before.skip(n0).push(
                                self.items@.last(),
                            ));
                            assert(self.items@.skip(n0).map_values(|p: Pod| p.color)
                                =~= before.skip(n0).map_values(|p: Pod| p.color).push(color));
                        }
                        if before.len() == n0 {
                            assert(self.items@[n0].color == color);
                        } else {
                            assert(self.items@[n0] == before[n0]);
                        }
                        assert forall|i: int, j: int|
                            0 <= i < j < self.items@.len() implies (
                        #[trigger] self.items@[i]).spec_id() != (
                        #[trigger] self.items@[j]).spec_id() by {
                            if j < self.items@.len() - 1 {
                                assert(self.items@[i] == before[i]);
                                assert(self.items@[j] == before[j]);
                            } else {
                                assert(self.items@[i] == before[i]);
                                if self.items@[j].spec_id() == before[i].spec_id() {
                                    assert(contains_id(before, self.items@[j].spec_id()));
                                }
                            }
                        }
                        assert(self.items@.take(n0) =~= before.take(n0));
                        assert forall|dd: int|
                            0 <= dd < d + 1 && spec_pod_running(&listings@[dd]) && regex_match(
                                old(self).pod_search.pattern(),
                                spec_pod_name(&listings@[dd]),
                            ) implies contains_id(
                            self.items@,
                            (
                                (#[trigger] listings@[dd]).namespace@,
                                spec_pod_name(&listings@[dd]),
                            ),
                        ) by {
                            if dd < d {
                                lemma_contains_id_push(
                                    before,
                                    (listings@[dd].namespace@, spec_pod_name(&listings@[dd])),
                                    self.items@.last(),
                                );
                            } else {
                                assert(self.items@.last().spec_id() == (
                                    listings@[dd].namespace@,
                                    spec_pod_name(&listings@[dd]),
                                ));
                            }
                        }
                        assert forall|k: int|
                            n0 <= k < self.items@.len() implies !contains_id(
                            old(self).items@,
                            (#[trigger] self.items@[k]).spec_id(),
                        ) by {
                            if k < self.items@.len() - 1 {
                                assert(self.items@[k] == before[k]);
                            } else {
                                if contains_id(old(self).items@, self.items@[k].spec_id()) {
                                    let w = choose|w: int|
                                        0 <= w < old(self).items@.len() && (#[trigger] old(
                                            self,
                                        ).items@[w]).spec_id() == self.items@[k].spec_id();
                                    assert(before[w] == old(self).items@[w]);
                                    assert(contains_id(before, self.items@[k].spec_id()));
                                }
                            }
                        }
                        assert(self.items@.map_values(|p: Pod| p.spec_id()) =~= before.map_values(
                            |p: Pod| p.spec_id(),
                        ).push(nid));
                        assert(self.items@.map_values(|p: Pod| p.spec_id()) =~= ids0 + new_ids(
                            listings@.take(d as int + 1),
                            pattern,
                            old(self).items@,
                        ));
                    }
                } else {
                    proof {
                        lemma_contains_id_map(self.items@, nid);
                        lemma_concat_contains(ids0, rest, nid);
                        lemma_contains_id_map(old(self).items@, nid);
                        assert(contains_id(old(self).items@, nid) || rest.contains(nid));
                        assert(new_ids(listings@.take(d as int + 1), pattern, old(self).items@)
                            =~= rest);
                    }
                }
            } else {
                proof {
                    assert(!spec_eligible(&listings@[d as int], pattern));
                    assert(new_ids(listings@.take(d as int + 1), pattern, old(self).items@)
                        =~= rest);
                }
            }
            d = d + 1;
        }
        proof {
            assert(listings@.take(listings@.len() as int) =~= listings@);
        }
        if found_one {
            self.set_global_fields();
        }
    }

    /// Erases the pod with `pod`'s identity, if present, and recomputes the
    /// derived metrics. Removing an absent pod is a no-op, not an error, so
    /// the call is idempotent.
    pub fn remove_pod(&mut self, pod: &Pod)
        requires
            old(self).wf(),
        ensures
            final(self).wf(),
            final(self).items@ == remove_id(old(self).items@, pod.spec_id()),
            final(self).pod_search == old(self).pod_search,
            final(self).colors == old(self).colors,
    {
        let ghost id = pod.spec_id();
        let mut i: usize = 0;
        let mut found: bool = false;
        let n = self.items.len();
        while i < n && !found
            invariant
                0 <= i <= n,
                n == self.items@.len(),
                id == pod.spec_id(),
                found ==> i < n && self.items@[i as int].spec_id() == id,
                !found ==> forall|j: int|
                    0 <= j < i ==> (#[trigger] self.items@[j]).spec_id() != id,
                self.items@ == old(self).items@,
            decreases n - i + (if found {
                0int
            } else {
                1int
            }),
        {
            let same_name = str_eq(self.items[i].name.as_str(), pod.name.as_str());
            let same_ns = str_eq(self.items[i].namespace.as_str(), pod.namespace.as_str());
            if same_name && same_ns {
                found = true;
            } else {
                i = i + 1;
            }
        }
        if found {
            self.items.remove(i);
            proof {
                lemma_remove_id_at(old(self).items@, id, i as int);
                assert forall|x: int, y: int|
                    0 <= x < y < self.items@.len() implies (
                #[trigger] self.items@[x]).spec_id() != (#[trigger] self.items@[y]).spec_id() by {
                    let ox = if x < i {
                        x
                    } else {
                        x + 1
                    };
                    let oy = if y < i {
                        y
                    } else {
                        y + 1
                    };
                    assert(self.items@[x] == old(self).items@[ox]);
                    assert(self.items@[y] == old(self).items@[oy]);
                }
            }
            self.set_global_fields();
        } else {
            proof {
                lemma_remove_id_absent(old(self).items@, id);
            }
        }
    }

    /// The stream supervisor's teardown, exactly once per stream end: the
    /// pod leaves the registry and its color returns to the allocator. Every
    /// other pod, and its color, is untouched.
    pub fn teardown_pod(&mut self, pod: &Pod)
        requires
            old(self).wf(),
        ensures
            final(self).wf(),
            final(self).items@ == remove_id(old(self).items@, pod.spec_id()),
            final(self).pod_search == old(self).pod_search,
            final(self).colors.spec_used() == remove_first_color(
                old(self).colors.spec_used(),
                pod.color,
            ),
            final(self).colors.spec_available() == (if old(self).colors.spec_used().contains(
                pod.color,
            ) && !remove_first_color(old(self).colors.spec_used(), pod.color).contains(pod.color) {
                old(self).colors.spec_available().push(pod.color)
            } else {
                old(self).colors.spec_available()
            }),
    {
        self.remove_pod(pod);
        self.colors.set_color_to_unused(pod.color);
        proof {
            assert(self.wf());
        }
    }
}

} // verus!

verus! {

/// How many of the listed pods match the search (running or not): the number
/// the initial color pool is sized by.
pub open spec fn spec_match_count(listings: Seq<PodDescriptor>, pattern: Seq<char>) -> nat
    decreases listings.len(),
{
    if listings.len() == 0 {
        0
    } else {
        spec_match_count(listings.drop_last(), pattern) + (if regex_match(
            pattern,
            spec_pod_name(&listings.last()),
        ) {
            1nat
        } else {
            0nat
        })
    }
}

/// Counts the listed pods whose name matches the search.
pub fn get_pods_cnt(listings: &Vec<PodDescriptor>, search: &Matcher) -> (n: usize)
    ensures
        n as nat == spec_match_count(listings@, search.pattern()),
{
    let mut n: usize = 0;
    let mut i: usize = 0;
    while i < listings.len()
        invariant
            0 <= i <= listings@.len(),
            n <= i,
            n as nat == spec_match_count(listings@.take(i as int), search.pattern()),
        decreases listings@.len() - i,
    {
        let name = get_pod_name(&listings[i]);
        let matched = search.is_match(name.as_str());
        if matched {
            n = n + 1;
        }
        i = i + 1;
        proof {
            assert(listings@.take(i as int).drop_last() =~= listings@.take(i as int - 1));
            assert(listings@.take(i as int).last() == listings@[i as int - 1]);
        }
    }
    proof {
        assert(listings@.take(listings@.len() as int) =~= listings@);
    }
    n
}

} // verus!
