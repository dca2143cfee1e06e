//! The cache: abstract storage for build events, and the decorator that keeps
//! several stacks apart in one shared backend.

use crate::plan;
use crate::text;
use crate::types;
use crate::types::{ActionId, BuildEvent, BuildEventView, BuildRecord};
use vstd::prelude::*;

verus! {

/// Errors that can occur during cache operations.
#[derive(Debug, PartialEq, Eq)]
pub enum CacheError {
    /// An I/O error occurred while accessing the cache. Carries its rendering.
    Io(String),
    /// A backend-specific error occurred (driver-level, schema, lock).
    Backend(String),
}

/// What a [`CacheError`] holds.
#[verifier::ext_equal]
pub enum CacheErrorView {
    /// See [`CacheError::Io`].
    Io(Seq<char>),
    /// See [`CacheError::Backend`].
    Backend(Seq<char>),
}

impl View for CacheError {
    type V = CacheErrorView;

    open spec fn view(&self) -> CacheErrorView {
        match *self {
            CacheError::Io(s) => CacheErrorView::Io(s@),
            CacheError::Backend(s) => CacheErrorView::Backend(s@),
        }
    }
}

/// The one-line rendering of a cache error.
pub open spec fn cache_error_text(e: CacheErrorView) -> Seq<char> {
    match e {
        CacheErrorView::Io(s) => "io: "@ + s,
        CacheErrorView::Backend(s) => "backend: "@ + s,
    }
}

impl CacheError {
    /// Renders the error.
    pub fn to_string(&self) -> (r: String)
        ensures
            r@ == cache_error_text(self@),
    {
        match self {
            CacheError::Io(s) => {
                let mut r = "io: ".to_owned();
                r.append(s);
                r
            },
            CacheError::Backend(s) => {
                let mut r = "backend: ".to_owned();
                r.append(s);
                r
            },
        }
    }
}

/// The contents after recording the first `n` events of a batch, in order.
pub open spec fn recorded(
    contents: Map<Seq<char>, BuildEventView>,
    events: Seq<BuildEventView>,
    n: int,
) -> Map<Seq<char>, BuildEventView>
    decreases n,
{
    if n <= 0 {
        contents
    } else {
        recorded(contents, events, n - 1).insert(events[n - 1].id(), events[n - 1])
    }
}

/// Recording one batch after another is recording both in one.
pub proof fn batches_compose(
    contents: Map<Seq<char>, BuildEventView>,
    a: Seq<BuildEventView>,
    b: Seq<BuildEventView>,
    n: int,
)
    requires
        0 <= n <= b.len(),
    ensures
        recorded(recorded(contents, a, a.len() as int), b, n) == recorded(
            contents,
            a + b,
            a.len() + n,
        ),
    decreases n,
{
    if n > 0 {
        batches_compose(contents, a, b, n - 1);
        assert((a + b)[a.len() + n - 1] == b[n - 1]);
    } else {
        prefix_recorded(contents, a, b, a.len() as int);
    }
}

proof fn prefix_recorded(
    contents: Map<Seq<char>, BuildEventView>,
    a: Seq<BuildEventView>,
    b: Seq<BuildEventView>,
    n: int,
)
    requires
        n <= a.len(),
    ensures
        recorded(contents, a + b, n) == recorded(contents, a, n),
    decreases n,
{
    if n > 0 {
        prefix_recorded(contents, a, b, n - 1);
        assert((a + b)[n - 1] == a[n - 1]);
    }
}

/// Persistent store for build events, keyed by action id.
pub trait Cache {
    /// The last recorded event of each action. An implementation tells it by
    /// overriding this; the default tells nothing.
    open spec fn contents(&self) -> Map<Seq<char>, BuildEventView> {
        arbitrary()
    }

    /// Last recorded event for `id`, or `None` if the action has never run.
    fn last_build(&self, id: &ActionId) -> (r: Option<BuildEvent>)
        ensures
            plan::event_view(r) == plan::lookup(self.contents(), id@),
    ;

    /// Last recorded event for `id` and, where the backend knows it, when it
    /// was recorded.
    fn last_record(&self, id: &ActionId) -> (r: Option<BuildRecord>)
        ensures
            match r {
                Some(rec) => plan::lookup(self.contents(), id@) == Some(rec.event@),
                None => plan::lookup(self.contents(), id@) is None,
            },
        default_ensures
            r matches Some(rec) ==> rec.recorded_at is None,
    {
        match self.last_build(id) {
            Some(event) => Some(BuildRecord { event, recorded_at: None }),
            None => None,
        }
    }

    /// Persists `event`. After success, [`Self::last_build`] for the event's
    /// id returns this event, and what it returns for other ids is unchanged.
    fn record(&mut self, event: BuildEvent) -> (r: Result<(), CacheError>)
        ensures
            r is Ok ==> final(self).contents() == old(self).contents().insert(event@.id(), event@),
    ;

    /// Persists several events in order. Nothing to persist is no failure.
    ///
    /// By default the events are recorded one by one. The first that cannot be
    /// recorded ends the batch: those before it were recorded, and its error is
    /// returned.
    fn record_batch(&mut self, events: Vec<BuildEvent>) -> (r: Result<(), CacheError>)
        ensures
            r is Ok ==> final(self).contents() == recorded(
                old(self).contents(),
                types::event_views(events@),
                events@.len() as int,
            ),
            events@.len() == 0 ==> r is Ok,
        default_ensures
            r is Err ==> exists|k: int, m: &mut Self|
                0 <= k < events@.len() && m.contents() == recorded(
                    old(self).contents(),
                    types::event_views(events@),
                    k,
                ) && &*final(m) == &*final(self) && #[trigger] call_ensures(
                    Self::record,
                    (m, events@[k]),
                    r,
                ),
    {
        let ghost before = self.contents();
        let ghost ev = types::event_views(events@);
        let mut i: usize = 0;
        while i < events.len()
            invariant
                i <= events.len(),
                ev == types::event_views(events@),
                before == old(self).contents(),
                self.contents() == recorded(before, ev, i as int),
            decreases events.len() - i,
        {
            assert(ev[i as int] == events@[i as int]@);
            match self.record(events[i].clone()) {
                Err(e) => {
                    return Err(e);
                },
                Ok(_) => {},
            }
            i = i + 1;
        }
        Ok(())
    }
}

/// Cache decorator that prefixes every id with a fixed namespace.
///
/// Two child stacks that both declare a node `api` would collide in a single
/// shared backend; a namespace per stack keeps their keys disjoint.
pub struct NamespacedCache<C> {
    inner: C,
    prefix: String,
}

/// An id without the namespace; an id outside the namespace is left as it is.
pub open spec fn stripped(prefix: Seq<char>, id: Seq<char>) -> Seq<char> {
    if text::begins_with(id, prefix) {
        id.skip(prefix.len() as int)
    } else {
        id
    }
}

/// What a cache looks like from inside a namespace.
pub open spec fn namespace_view(
    contents: Map<Seq<char>, BuildEventView>,
    prefix: Seq<char>,
) -> Map<Seq<char>, BuildEventView> {
    Map::new(
        |id: Seq<char>| contents.contains_key(prefix + id),
        |id: Seq<char>|
            contents[prefix + id].with_id(stripped(prefix, contents[prefix + id].id())),
    )
}

/// Stripping a namespace undoes adding it.
pub proof fn strip_undoes_prefix(prefix: Seq<char>, id: Seq<char>)
    ensures
        stripped(prefix, prefix + id) == id,
{
    assert((prefix + id).take(prefix.len() as int) =~= prefix);
    assert((prefix + id).skip(prefix.len() as int) =~= id);
}

/// Within one namespace, different ids stay different.
pub proof fn prefix_injective(prefix: Seq<char>, a: Seq<char>, b: Seq<char>)
    requires
        prefix + a == prefix + b,
    ensures
        a == b,
{
    strip_undoes_prefix(prefix, a);
    strip_undoes_prefix(prefix, b);
}

/// Namespaces of which neither begins with the other share no key, whatever
/// the ids.
pub proof fn namespaces_are_disjoint(p: Seq<char>, q: Seq<char>, a: Seq<char>, b: Seq<char>)
    requires
        !text::begins_with(p, q),
        !text::begins_with(q, p),
    ensures
        p + a != q + b,
{
    if p + a == q + b {
        let s = p + a;
        if p.len() <= q.len() {
            assert(s.take(p.len() as int) =~= p);
            assert(q.take(p.len() as int) =~= (q + b).take(p.len() as int));
        } else {
            assert(s.take(q.len() as int) =~= p.take(q.len() as int));
            assert((q + b).take(q.len() as int) =~= q);
        }
    }
}

/// Recording in one namespace leaves what another one sees unchanged.
pub proof fn recording_stays_in_namespace(
    contents: Map<Seq<char>, BuildEventView>,
    p: Seq<char>,
    q: Seq<char>,
    event: BuildEventView,
)
    requires
        !text::begins_with(p, q),
        !text::begins_with(q, p),
    ensures
        namespace_view(
            contents.insert(p + event.id(), event.with_id(p + event.id())),
            q,
        ) == namespace_view(contents, q),
{
    let after = contents.insert(p + event.id(), event.with_id(p + event.id()));
    assert forall|id: Seq<char>| namespace_view(after, q).contains_key(id) <==> namespace_view(
        contents,
        q,
    ).contains_key(id) by {
        namespaces_are_disjoint(p, q, event.id(), id);
    }
    assert forall|id: Seq<char>| #[trigger]
        namespace_view(after, q).contains_key(id) implies namespace_view(after, q)[id]
        == namespace_view(contents, q)[id] by {
        namespaces_are_disjoint(p, q, event.id(), id);
    }
    assert(namespace_view(after, q) =~= namespace_view(contents, q));
}

/// Recording in a namespace is, seen from inside it, recording the event itself.
pub proof fn recording_seen_inside(
    contents: Map<Seq<char>, BuildEventView>,
    p: Seq<char>,
    event: BuildEventView,
)
    ensures
        namespace_view(
            contents.insert(p + event.id(), event.with_id(p + event.id())),
            p,
        ) == namespace_view(contents, p).insert(event.id(), event),
{
    let key = p + event.id();
    let after = contents.insert(key, event.with_id(key));
    let want = namespace_view(contents, p).insert(event.id(), event);
    strip_undoes_prefix(p, event.id());
    assert(after[key].with_id(stripped(p, after[key].id())) == event);
    assert forall|id: Seq<char>| namespace_view(after, p).contains_key(id) <==> want.contains_key(
        id,
    ) by {
        if p + id == key {
            prefix_injective(p, id, event.id());
        }
    }
    assert forall|id: Seq<char>| #[trigger]
        namespace_view(after, p).contains_key(id) implies namespace_view(after, p)[id]
        == want[id] by {
        if p + id == key {
            prefix_injective(p, id, event.id());
        }
    }
    assert(namespace_view(after, p) =~= want);
}

impl<C: Cache> NamespacedCache<C> {
    /// The wrapped cache.
    pub closed spec fn wrapped(&self) -> C {
        self.inner
    }

    /// The contents of the wrapped cache.
    pub open spec fn inner_contents(&self) -> Map<Seq<char>, BuildEventView> {
        self.wrapped().contents()
    }

    /// The namespace.
    pub closed spec fn prefix_view(&self) -> Seq<char> {
        self.prefix@
    }

    /// Wraps `inner`, prefixing every id with `prefix` (e.g. `"stack-a::"`).
    pub fn new(inner: C, prefix: &str) -> (r: Self)
        ensures
            r.wrapped() == inner,
            r.inner_contents() == inner.contents(),
            r.prefix_view() == prefix@,
            r.contents() == namespace_view(inner.contents(), prefix@),
    {
        NamespacedCache { inner, prefix: prefix.to_owned() }
    }

    /// An id as the wrapped cache knows it.
    pub fn prefixed(&self, id: &ActionId) -> (r: ActionId)
        ensures
            r@ == self.prefix_view() + id@,
    {
        let mut s = self.prefix.clone();
        s.append(&id.0);
        ActionId(s)
    }

    /// Rewrites the event's id with the namespace.
    pub fn prefixed_event(&self, event: BuildEvent) -> (r: BuildEvent)
        ensures
            r@ == event@.with_id(self.prefix_view() + event@.id()),
    {
        match event {
            BuildEvent::Success { id, input, output, ms } => BuildEvent::Success {
                id: self.prefixed(&id),
                input,
                output,
                ms,
            },
            BuildEvent::Failed { id, input, error, ms } => BuildEvent::Failed {
                id: self.prefixed(&id),
                input,
                error,
                ms,
            },
        }
    }

    /// An id without the namespace.
    fn strip(&self, id: &ActionId) -> (r: ActionId)
        ensures
            r@ == stripped(self.prefix_view(), id@),
    {
        if text::starts_with(&id.0, &self.prefix) {
            let chars = text::chars_of(&id.0);
            let n: usize = text::chars_of(&self.prefix).len();
            let s = text::slice_text(&chars, n, chars.len());
            assert(id@.subrange(n as int, id@.len() as int) =~= id@.skip(n as int));
            ActionId(s)
        } else {
            id.clone()
        }
    }

    /// Takes the namespace off an event's id, so that callers see the ids they
    /// stored.
    pub fn stripped_event(&self, event: BuildEvent) -> (r: BuildEvent)
        ensures
            r@ == event@.with_id(stripped(self.prefix_view(), event@.id())),
    {
        match event {
            BuildEvent::Success { id, input, output, ms } => BuildEvent::Success {
                id: self.strip(&id),
                input,
                output,
                ms,
            },
            BuildEvent::Failed { id, input, error, ms } => BuildEvent::Failed {
                id: self.strip(&id),
                input,
                error,
                ms,
            },
        }
    }
}

/// A batch as the wrapped cache receives it.
pub open spec fn prefixed_batch(
    prefix: Seq<char>,
    events: Seq<BuildEventView>,
) -> Seq<BuildEventView> {
    events.map_values(|e: BuildEventView| e.with_id(prefix + e.id()))
}

proof fn batch_seen_inside(
    contents: Map<Seq<char>, BuildEventView>,
    p: Seq<char>,
    events: Seq<BuildEventView>,
    n: int,
)
    requires
        0 <= n <= events.len(),
    ensures
        namespace_view(recorded(contents, prefixed_batch(p, events), n), p) == recorded(
            namespace_view(contents, p),
            events,
            n,
        ),
    decreases n,
{
    if n > 0 {
        batch_seen_inside(contents, p, events, n - 1);
        let before = recorded(contents, prefixed_batch(p, events), n - 1);
        let e = events[n - 1];
        assert(prefixed_batch(p, events)[n - 1] == e.with_id(p + e.id()));
        recording_seen_inside(before, p, e);
    }
}

impl<C: Cache> Cache for NamespacedCache<C> {
    open spec fn contents(&self) -> Map<Seq<char>, BuildEventView> {
        namespace_view(self.inner_contents(), self.prefix_view())
    }

    fn last_build(&self, id: &ActionId) -> (r: Option<BuildEvent>) {
        match self.inner.last_build(&self.prefixed(id)) {
            Some(event) => Some(self.stripped_event(event)),
            None => None,
        }
    }

    /// Hands the event on under its prefixed id; the answer of the wrapped cache
    /// is the answer.
    fn record(&mut self, event: BuildEvent) -> (r: Result<(), CacheError>)
        ensures
            final(self).prefix_view() == old(self).prefix_view(),
            exists|m: &mut C, e: BuildEvent|
                *m == old(self).wrapped() && *final(m) == final(self).wrapped() && e@
                    == event@.with_id(old(self).prefix_view() + event@.id())
                    && #[trigger] call_ensures(C::record, (m, e), r),
    {
        let event1 = self.prefixed_event(event);
        proof {
            recording_seen_inside(self.inner.contents(), self.prefix@, event@);
        }
        self.inner.record(event1)
    }

    /// Hands the batch on under the prefixed ids; the answer of the wrapped cache
    /// is the answer.
    fn record_batch(&mut self, events: Vec<BuildEvent>) -> (r: Result<(), CacheError>)
        ensures
            final(self).prefix_view() == old(self).prefix_view(),
            exists|m: &mut C, batch: Vec<BuildEvent>|
                *m == old(self).wrapped() && *final(m) == final(self).wrapped()
                    && types::event_views(batch@) == prefixed_batch(
                    old(self).prefix_view(),
                    types::event_views(events@),
                ) && #[trigger] call_ensures(C::record_batch, (m, batch), r),
    {
        let ghost ev = types::event_views(events@);
        let mut prefixed: Vec<BuildEvent> = Vec::new();
        let mut i: usize = 0;
        while i < events.len()
            invariant
                i <= events.len(),
                ev == types::event_views(events@),
                prefixed.len() == i,
                forall|k: int|
                    0 <= k < i ==> (#[trigger] prefixed@[k])@ == ev[k].with_id(
                        self.prefix_view() + ev[k].id(),
                    ),
                *self == *old(self),
            decreases events.len() - i,
        {
            assert(ev[i as int] == events@[i as int]@);
            prefixed.push(self.prefixed_event(events[i].clone()));
            i = i + 1;
        }
        proof {
            assert(types::event_views(prefixed@) =~= prefixed_batch(self.prefix@, ev));
            batch_seen_inside(self.inner.contents(), self.prefix@, ev, ev.len() as int);
        }
        self.inner.record_batch(prefixed)
    }
}

} // verus!
