//! A per-destination authorization object deciding upload admission.
//!
//! Three concurrent sources can hold a gate open: a sentinel (reset to the
//! configured default by any open-assertion, forced off by an explicit
//! close), a set of guarded assertions whose lifetime is the lifetime of a
//! handle held by the caller, and a single deadline-bounded assertion.  An
//! optional expiring name hint tags uploads admitted while it is live; a
//! hint attached to a guarded assertion dies with that assertion's handle.
//!
//! Time is carried as a plain number of milliseconds on a monotonic clock;
//! the caller samples the clock and passes `now` in.

pub mod web;

use vstd::prelude::*;

use crate::error::WuffError;

verus! {

/// Per-gate configuration.  Lifetimes are in seconds.
#[derive(Debug, Clone)]
pub struct ConfigGate {
    pub default_open: bool,
    pub timed_assertion_lifetime: u32,
    pub name_hint_lifetime: u32,
}

/// The configured fallback: a gate starts closed.
pub fn default_default_open() -> (r: bool)
    ensures
        r == false,
{
    false
}

/// The configured fallback for the timed assertion lifetime: 1 hour.
pub fn default_timed_assertion_lifetime() -> (r: u32)
    ensures
        r == 3600,
{
    3600
}

/// The configured fallback for the name hint lifetime: 10 minutes.
pub fn default_name_hint_lifetime() -> (r: u32)
    ensures
        r == 600,
{
    600
}

/// The active name hint, its expiry instant in milliseconds, and the guarded
/// assertion it depends on, if any.
pub struct GateNameHint {
    pub expires_at: u64,
    pub depends_on_guarded: Option<u64>,
    pub name_hint: String,
}

/// The mutable state of a gate.
pub struct GateInner {
    pub sentinel: bool,
    pub next_guarded_assertion_id: u64,
    pub guarded_assertions: Vec<u64>,
    pub expiring_assertion: Option<u64>,
    pub name_hint: Option<GateNameHint>,
}

/// The handle returned by a guarded open-assertion.  Handing it back to
/// [`Gate::drop_guard`] retires the assertion; that is what dropping the
/// handle does in a running deployment.
pub struct GateAssertionGuard {
    pub id: u64,
}

/// A named authorization object.  All instants and lifetimes are in
/// milliseconds.
pub struct Gate {
    pub name: String,
    pub default_open: bool,
    pub timed_assertion_lifetime: u64,
    pub name_hint_lifetime: u64,
    pub inner: GateInner,
}

impl Gate {
    /// Internal consistency: the active guarded-assertion ids are
    /// strictly increasing (so each appears once) and below the allocator.
    pub open spec fn inv(self) -> bool {
        &&& forall|i: int, j: int|
            0 <= i < j < self.inner.guarded_assertions@.len()
                ==> #[trigger] self.inner.guarded_assertions@[i]
                < #[trigger] self.inner.guarded_assertions@[j]
        &&& forall|i: int|
            0 <= i < self.inner.guarded_assertions@.len()
                ==> #[trigger] self.inner.guarded_assertions@[i]
                < self.inner.next_guarded_assertion_id
    }

    /// The configuration half, which no operation changes.
    pub open spec fn same_config(self, other: Gate) -> bool {
        &&& other.name == self.name
        &&& other.default_open == self.default_open
        &&& other.timed_assertion_lifetime == self.timed_assertion_lifetime
        &&& other.name_hint_lifetime == self.name_hint_lifetime
    }

    /// Whether this gate is open at `now`: any of the three sources being
    /// active suffices.  A deadline-bounded assertion still counts at the
    /// very instant of its deadline.
    pub open spec fn spec_open(self, now: u64) -> bool {
        ||| self.inner.sentinel
        ||| self.inner.guarded_assertions@.len() > 0
        ||| match self.inner.expiring_assertion {
            Some(t) => t >= now,
            None => false,
        }
    }

    /// Whether a name hint is live at `now`.
    pub open spec fn spec_hint_visible(self, now: u64) -> bool {
        match self.inner.name_hint {
            Some(h) => h.expires_at >= now,
            None => false,
        }
    }

    /// The observable state at `now`: `None` when closed, `Some(None)` when
    /// open without a live hint, `Some(Some(hint))` when open with one.
    pub open spec fn spec_state(self, now: u64) -> Option<Option<Seq<char>>> {
        if !self.spec_open(now) {
            None
        } else if self.spec_hint_visible(now) {
            Some(Some(self.inner.name_hint->Some_0.name_hint@))
        } else {
            Some(None)
        }
    }

    /// How long this gate stays open when only the deadline-bounded assertion
    /// holds it open; `None` when it is closed or held open indefinitely.
    pub open spec fn spec_gate_time_left(self, now: u64) -> Option<u64> {
        if self.inner.sentinel || self.inner.guarded_assertions@.len() > 0 {
            None
        } else {
            match self.inner.expiring_assertion {
                Some(t) => if t >= now {
                    Some((t - now) as u64)
                } else {
                    None
                },
                None => None,
            }
        }
    }

    /// The residual time until the observable state next changes: the hint
    /// expiry or the deadline-bounded close, whichever comes first.
    pub open spec fn spec_next_change(self, now: u64) -> Option<u64> {
        if !self.spec_open(now) {
            None
        } else if self.spec_hint_visible(now) {
            let hint_left = (self.inner.name_hint->Some_0.expires_at - now) as u64;
            match self.spec_gate_time_left(now) {
                Some(g) => if hint_left <= g {
                    Some(hint_left)
                } else {
                    Some(g)
                },
                None => Some(hint_left),
            }
        } else {
            self.spec_gate_time_left(now)
        }
    }

    /// Creates a gate from its configuration.  The sentinel starts at the
    /// configured default.
    pub fn new(name: &str, cfg: &ConfigGate) -> (r: Gate)
        ensures
            r.inv(),
            r.name@ == name@,
            r.default_open == cfg.default_open,
            r.timed_assertion_lifetime == cfg.timed_assertion_lifetime as u64 * 1000,
            r.name_hint_lifetime == cfg.name_hint_lifetime as u64 * 1000,
            r.inner.sentinel == cfg.default_open,
            r.inner.next_guarded_assertion_id == 0,
            r.inner.guarded_assertions@.len() == 0,
            r.inner.expiring_assertion is None,
            r.inner.name_hint is None,
    {
        Gate {
            name: name.to_owned(),
            default_open: cfg.default_open,
            timed_assertion_lifetime: cfg.timed_assertion_lifetime as u64 * 1000,
            name_hint_lifetime: cfg.name_hint_lifetime as u64 * 1000,
            inner: GateInner {
                sentinel: cfg.default_open,
                next_guarded_assertion_id: 0,
                guarded_assertions: Vec::new(),
                expiring_assertion: None,
                name_hint: None,
            },
        }
    }

    /// Closes this gate: the sentinel is forced off, every assertion and the
    /// hint are cleared.  After this, and before any further assertion, the
    /// gate reports closed at every instant, whatever its default.
    pub fn assert_gate_closed(&mut self)
        requires
            old(self).inv(),
        ensures
            final(self).inv(),
            old(self).same_config(*final(self)),
            final(self).inner.next_guarded_assertion_id == old(
                self,
            ).inner.next_guarded_assertion_id,
            final(self).inner.sentinel == false,
            final(self).inner.guarded_assertions@.len() == 0,
            final(self).inner.expiring_assertion is None,
            final(self).inner.name_hint is None,
            forall|now: u64| final(self).spec_state(now) is None,
    {
        self.inner.sentinel = false;
        self.inner.guarded_assertions.clear();
        self.inner.expiring_assertion = None;
        self.inner.name_hint = None;
    }

    /// Opens this gate until `now + timed_assertion_lifetime`, overwriting
    /// any previous deadline, and resets the sentinel to the default.  The
    /// hint and the guarded assertions are untouched.
    pub fn assert_gate_open_timed(&mut self, now: u64)
        requires
            old(self).inv(),
            now + old(self).timed_assertion_lifetime <= u64::MAX,
        ensures
            final(self).inv(),
            old(self).same_config(*final(self)),
            final(self).inner.sentinel == final(self).default_open,
            final(self).inner.expiring_assertion == Some(
                (now + final(self).timed_assertion_lifetime) as u64,
            ),
            final(self).inner.guarded_assertions == old(self).inner.guarded_assertions,
            final(self).inner.next_guarded_assertion_id == old(
                self,
            ).inner.next_guarded_assertion_id,
            final(self).inner.name_hint == old(self).inner.name_hint,
    {
        self.inner.sentinel = self.default_open;
        self.inner.expiring_assertion = Some(now + self.timed_assertion_lifetime);
    }

    /// As [`Gate::assert_gate_open_timed`], and replaces the active name
    /// hint: a supplied hint expires at `now + name_hint_lifetime`, but no
    /// later than the assertion's own deadline; no hint clears it.
    pub fn assert_gate_open_timed_with_name_hint(&mut self, now: u64, name_hint: Option<String>)
        requires
            old(self).inv(),
            now + old(self).timed_assertion_lifetime <= u64::MAX,
            now + old(self).name_hint_lifetime <= u64::MAX,
        ensures
            final(self).inv(),
            old(self).same_config(*final(self)),
            final(self).inner.sentinel == final(self).default_open,
            final(self).inner.expiring_assertion == Some(
                (now + final(self).timed_assertion_lifetime) as u64,
            ),
            final(self).inner.guarded_assertions == old(self).inner.guarded_assertions,
            final(self).inner.next_guarded_assertion_id == old(
                self,
            ).inner.next_guarded_assertion_id,
            match name_hint {
                Some(h) => {
                    &&& final(self).inner.name_hint is Some
                    &&& final(self).inner.name_hint->Some_0.name_hint == h
                    &&& final(self).inner.name_hint->Some_0.depends_on_guarded is None
                    &&& final(self).inner.name_hint->Some_0.expires_at == spec_min(
                        now + final(self).name_hint_lifetime,
                        now + final(self).timed_assertion_lifetime,
                    )
                },
                None => final(self).inner.name_hint is None,
            },
    {
        self.inner.sentinel = self.default_open;
        let expiration = now + self.timed_assertion_lifetime;
        self.inner.expiring_assertion = Some(expiration);
        self.inner.name_hint = match name_hint {
            Some(h) => {
                let hint_expiration = now + self.name_hint_lifetime;
                let capped = if hint_expiration < expiration {
                    hint_expiration
                } else {
                    expiration
                };
                Some(GateNameHint { expires_at: capped, depends_on_guarded: None, name_hint: h })
            },
            None => None,
        };
    }

    /// Opens this gate for as long as the returned handle lives, and resets
    /// the sentinel to the default.  The hint and the deadline-bounded
    /// assertion are untouched.
    pub fn assert_gate_open_guarded(&mut self) -> (guard: GateAssertionGuard)
        requires
            old(self).inv(),
            old(self).inner.next_guarded_assertion_id < u64::MAX,
        ensures
            final(self).inv(),
            old(self).same_config(*final(self)),
            guard.id == old(self).inner.next_guarded_assertion_id,
            final(self).inner.next_guarded_assertion_id == old(
                self,
            ).inner.next_guarded_assertion_id + 1,
            final(self).inner.guarded_assertions@ == old(self).inner.guarded_assertions@.push(
                guard.id,
            ),
            final(self).inner.sentinel == final(self).default_open,
            final(self).inner.expiring_assertion == old(self).inner.expiring_assertion,
            final(self).inner.name_hint == old(self).inner.name_hint,
    {
        self.inner.sentinel = self.default_open;
        let id = self.inner.next_guarded_assertion_id;
        self.inner.next_guarded_assertion_id = id + 1;
        self.inner.guarded_assertions.push(id);
        GateAssertionGuard { id }
    }

    /// As [`Gate::assert_gate_open_guarded`], and replaces the active name
    /// hint: a supplied hint expires at `now + name_hint_lifetime` and dies
    /// early if the returned handle is dropped first; no hint clears it.
    pub fn assert_gate_open_guarded_with_name_hint(
        &mut self,
        now: u64,
        name_hint: Option<String>,
    ) -> (guard: GateAssertionGuard)
        requires
            old(self).inv(),
            old(self).inner.next_guarded_assertion_id < u64::MAX,
            now + old(self).name_hint_lifetime <= u64::MAX,
        ensures
            final(self).inv(),
            old(self).same_config(*final(self)),
            guard.id == old(self).inner.next_guarded_assertion_id,
            final(self).inner.next_guarded_assertion_id == old(
                self,
            ).inner.next_guarded_assertion_id + 1,
            final(self).inner.guarded_assertions@ == old(self).inner.guarded_assertions@.push(
                guard.id,
            ),
            final(self).inner.sentinel == final(self).default_open,
            final(self).inner.expiring_assertion == old(self).inner.expiring_assertion,
            match name_hint {
                Some(h) => {
                    &&& final(self).inner.name_hint is Some
                    &&& final(self).inner.name_hint->Some_0.name_hint == h
                    &&& final(self).inner.name_hint->Some_0.depends_on_guarded == Some(guard.id)
                    &&& final(self).inner.name_hint->Some_0.expires_at == now + old(
                        self,
                    ).name_hint_lifetime
                },
                None => final(self).inner.name_hint is None,
            },
    {
        self.inner.sentinel = self.default_open;
        let id = self.inner.next_guarded_assertion_id;
        self.inner.next_guarded_assertion_id = id + 1;
        self.inner.guarded_assertions.push(id);
        self.inner.name_hint = match name_hint {
            Some(h) => Some(
                GateNameHint {
                    expires_at: now + self.name_hint_lifetime,
                    depends_on_guarded: Some(id),
                    name_hint: h,
                },
            ),
            None => None,
        };
        GateAssertionGuard { id }
    }

    /// Retires a guarded assertion: its id leaves the active set, and a name
    /// hint that depends on exactly this assertion is cleared with it.  This
    /// is what dropping the handle does; after an explicit close the id is
    /// already gone and this is a no-op.
    pub fn drop_guard(&mut self, guard: GateAssertionGuard)
        requires
            old(self).inv(),
        ensures
            final(self).inv(),
            old(self).same_config(*final(self)),
            final(self).inner.next_guarded_assertion_id == old(
                self,
            ).inner.next_guarded_assertion_id,
            final(self).inner.sentinel == old(self).inner.sentinel,
            final(self).inner.expiring_assertion == old(self).inner.expiring_assertion,
            forall|x: u64|
                #[trigger] final(self).inner.guarded_assertions@.contains(x) <==> (old(
                    self,
                ).inner.guarded_assertions@.contains(x) && x != guard.id),
            final(self).inner.name_hint == (match old(self).inner.name_hint {
                Some(h) => if h.depends_on_guarded == Some(guard.id) {
                    None
                } else {
                    Some(h)
                },
                None => None::<GateNameHint>,
            }),
    {
        let ghost q0 = self.inner.guarded_assertions@;
        match find_id(&self.inner.guarded_assertions, guard.id) {
            Some(i) => {
                self.inner.guarded_assertions.remove(i);
                proof {
                    let q1 = self.inner.guarded_assertions@;
                    assert forall|x: u64| #[trigger] q1.contains(x) <==> (q0.contains(x) && x
                        != guard.id) by {
                        if q1.contains(x) {
                            let k = choose|k: int| 0 <= k < q1.len() && q1[k] == x;
                            if k < i {
                                assert(q0[k] == x);
                                assert(q0[k] != q0[i as int]);
                            } else {
                                assert(q0[k + 1] == x);
                                assert(q0[i as int] < q0[k + 1]);
                            }
                        }
                        if q0.contains(x) && x != guard.id {
                            let k = choose|k: int| 0 <= k < q0.len() && q0[k] == x;
                            if k < i {
                                assert(q1[k] == x);
                            } else {
                                assert(k != i);
                                assert(q1[k - 1] == x);
                            }
                        }
                    }
                }
            },
            None => {
                proof {
                    assert forall|x: u64|
                        #[trigger] self.inner.guarded_assertions@.contains(x) <==> (q0.contains(x)
                            && x != guard.id) by {
                        if q0.contains(x) && x == guard.id {
                            let k = choose|k: int| 0 <= k < q0.len() && q0[k] == x;
                        }
                    }
                }
            },
        }
        let clear_hint = match &self.inner.name_hint {
            Some(h) => match h.depends_on_guarded {
                Some(dep) => dep == guard.id,
                None => false,
            },
            None => false,
        };
        if clear_hint {
            self.inner.name_hint = None;
        }
    }

    /// The observable state at `now`; see [`Gate::spec_state`].
    pub fn get_current_state(&self, now: u64) -> (r: Option<Option<String>>)
        ensures
            match r {
                None => self.spec_state(now) is None,
                Some(None) => self.spec_state(now) == Some(None::<Seq<char>>),
                Some(Some(h)) => self.spec_state(now) == Some(Some(h@)),
            },
    {
        let (state, _next_change_time) = self.get_current_state_extended(now);
        state
    }

    /// The observable state at `now`, together with the residual
    /// time until that state next changes by itself.
    pub fn get_current_state_extended(&self, now: u64) -> (r: (
        Option<Option<String>>,
        Option<u64>,
    ))
        ensures
            match r.0 {
                None => self.spec_state(now) is None,
                Some(None) => self.spec_state(now) == Some(None::<Seq<char>>),
                Some(Some(h)) => self.spec_state(now) == Some(Some(h@)),
            },
            r.1 == self.spec_next_change(now),
    {
        let mut time_until_gate_closes: Option<u64> = None;
        let mut gate_open: bool = self.inner.sentinel || self.inner.guarded_assertions.len() > 0;
        if !gate_open {
            if let Some(expiring_assertion) = self.inner.expiring_assertion {
                if expiring_assertion >= now {
                    gate_open = true;
                    time_until_gate_closes = Some(expiring_assertion - now);
                }
            }
        }
        if !gate_open {
            return (None, None);
        }
        if let Some(name_hint) = &self.inner.name_hint {
            if name_hint.expires_at >= now {
                let hint_left = name_hint.expires_at - now;
                let time_until_something_happens = match time_until_gate_closes {
                    Some(g) => if hint_left <= g {
                        hint_left
                    } else {
                        g
                    },
                    None => hint_left,
                };
                return (
                    Some(Some(name_hint.name_hint.clone())),
                    Some(time_until_something_happens),
                );
            }
        }
        (Some(None), time_until_gate_closes)
    }

    /// Decides admission for one upload at `now`.  A closed gate, or a
    /// filename whose extension the MIME table does not know, refuses the
    /// upload with `None`.  Otherwise the result carries the name hint the
    /// blob is tagged with (if one is live) and the MIME entry supplying
    /// suffix and content type; the caller binds them to a destination.
    pub fn try_write_file(
        &self,
        now: u64,
        orig_filename: &str,
        mime_types: &crate::mime_types::ConfigMimeTypesEnriched,
    ) -> (r: Option<(Option<String>, crate::mime_types::ConfigMimeTypeEnriched)>)
        requires
            mime_types.inv(),
        ensures
            ({
                let admitted = self.spec_state(now) is Some;
                let entry = match crate::mime_types::spec_rsplit_dot(orig_filename@) {
                    Some(p) => mime_types.spec_lookup(crate::mime_types::lower_of(p.1)),
                    None => None,
                };
                match r {
                    None => !admitted || entry is None,
                    Some((hint, mt)) => {
                        &&& admitted
                        &&& entry == Some(mt)
                        &&& match hint {
                            Some(h) => self.spec_state(now) == Some(Some(h@)),
                            None => self.spec_state(now) == Some(None::<Seq<char>>),
                        }
                    },
                }
            }),
    {
        let state = self.get_current_state(now);
        let name_hint = match state {
            Some(h) => h,
            None => {
                return None;
            },
        };
        let mime_type = match mime_types.get(orig_filename) {
            Some(mt) => mt,
            None => {
                return None;
            },
        };
        Some((name_hint, mime_type))
    }
}

/// Law: after an explicit close, and before any further assertion, a gate
/// reports closed at every instant — even one configured to default open,
/// because the close forces the sentinel off and clears both kinds of
/// assertion.
pub proof fn lemma_closed_gate_reports_closed(gate: Gate, now: u64)
    requires
        !gate.inner.sentinel,
        gate.inner.guarded_assertions@.len() == 0,
        gate.inner.expiring_assertion is None,
    ensures
        gate.spec_state(now) is None,
{
}

/// The index of `x` in `v`, if it occurs.
fn find_id(v: &Vec<u64>, x: u64) -> (r: Option<usize>)
    ensures
        match r {
            Some(i) => i < v@.len() && v@[i as int] == x,
            None => forall|k: int| 0 <= k < v@.len() ==> #[trigger] v@[k] != x,
        },
{
    let mut i: usize = 0;
    while i < v.len()
        invariant
            i <= v@.len(),
            forall|k: int| 0 <= k < i ==> #[trigger] v@[k] != x,
        decreases v@.len() - i,
    {
        if v[i] == x {
            return Some(i);
        }
        i = i + 1;
    }
    None
}

/// The smaller of two instants.
pub open spec fn spec_min(a: int, b: int) -> int {
    if a <= b {
        a
    } else {
        b
    }
}

/// The gates of a deployment, by name.
pub struct Gates {
    pub gates: Vec<(String, Gate)>,
}

impl Gates {
    /// Every configured name appears once.
    pub open spec fn inv(self) -> bool {
        &&& forall|i: int, j: int|
            0 <= i < j < self.gates@.len() ==> (#[trigger] self.gates@[i].0)@ != (
            #[trigger] self.gates@[j].0)@
        &&& forall|i: int| 0 <= i < self.gates@.len() ==> (#[trigger] self.gates@[i].1).inv()
    }

    /// Builds one gate per configuration entry, in order.  Fails exactly
    /// when two entries share a name.
    pub fn new(configs: &Vec<(String, ConfigGate)>) -> (r: Result<Gates, WuffError>)
        ensures
            match r {
                Ok(gates) => {
                    &&& gates.inv()
                    &&& gates.gates@.len() == configs@.len()
                    &&& forall|i: int|
                        0 <= i < configs@.len() ==> (#[trigger] gates.gates@[i].0)@ == (
                        configs@[i].0)@
                    &&& forall|i: int, j: int|
                        0 <= i < j < configs@.len() ==> (#[trigger] configs@[i].0)@ != (
                        #[trigger] configs@[j].0)@
                },
                Err(_) => exists|i: int, j: int|
                    0 <= i < j < configs@.len() && (#[trigger] configs@[i].0)@ == (
                    #[trigger] configs@[j].0)@,
            },
    {
        let mut gates: Vec<(String, Gate)> = Vec::new();
        let mut i: usize = 0;
        while i < configs.len()
            invariant
                i <= configs@.len(),
                gates@.len() == i,
                forall|k: int| 0 <= k < i ==> (#[trigger] gates@[k].0)@ == (configs@[k].0)@,
                forall|k: int| 0 <= k < i ==> (#[trigger] gates@[k].1).inv(),
                forall|k: int, l: int|
                    0 <= k < l < i ==> (#[trigger] configs@[k].0)@ != (#[trigger] configs@[l].0)@,
            decreases configs@.len() - i,
        {
            let name: &String = &configs[i].0;
            let cfg: &ConfigGate = &configs[i].1;
            proof {
                assert(name@ == (configs@[i as int].0)@);
            }
            let mut j: usize = 0;
            while j < i
                invariant
                    j <= i < configs@.len(),
                    gates@.len() == i,
                    name@ == (configs@[i as int].0)@,
                    forall|k: int| 0 <= k < i ==> (#[trigger] gates@[k].0)@ == (configs@[k].0)@,
                    forall|k: int| 0 <= k < j ==> (#[trigger] gates@[k].0)@ != (configs@[i as int].0)@,
                decreases i - j,
            {
                let other = &gates[j].0;
                if crate::util::str_eq(other.as_str(), name.as_str()) {
                    proof {
                        let jj = j as int;
                        let ii = i as int;
                        assert((configs@[jj].0)@ == (configs@[ii].0)@);
                        assert(0 <= jj < ii < configs@.len() && (#[trigger] configs@[jj].0)@ == (
                        #[trigger] configs@[ii].0)@);
                    }
                    return Err(WuffError::new("duplicate gate name"));
                }
                j = j + 1;
            }
            proof {
                assert forall|k: int| 0 <= k < i implies (#[trigger] configs@[k].0)@ != (
                configs@[i as int].0)@ by {
                    assert((gates@[k].0)@ == (configs@[k].0)@);
                    assert((gates@[k].0)@ != (configs@[i as int].0)@);
                }
            }
            let gate = Gate::new(name.as_str(), cfg);
            gates.push((name.clone(), gate));
            i = i + 1;
        }
        proof {
            assert forall|a: int, b: int| 0 <= a < b < gates@.len() implies (
            #[trigger] gates@[a].0)@ != (#[trigger] gates@[b].0)@ by {
                assert((gates@[a].0)@ == (configs@[a].0)@);
                assert((gates@[b].0)@ == (configs@[b].0)@);
            }
        }
        Ok(Gates { gates })
    }

    /// Looks a gate up by name.
    pub fn get(&self, name: &str) -> (r: Option<&Gate>)
        ensures
            match r {
                Some(g) => exists|i: int|
                    0 <= i < self.gates@.len() && (#[trigger] self.gates@[i].0)@ == name@ && *g
                        == self.gates@[i].1,
                None => forall|i: int|
                    0 <= i < self.gates@.len() ==> (#[trigger] self.gates@[i].0)@ != name@,
            },
    {
        let mut i: usize = 0;
        while i < self.gates.len()
            invariant
                i <= self.gates@.len(),
                forall|k: int| 0 <= k < i ==> (#[trigger] self.gates@[k].0)@ != name@,
            decreases self.gates@.len() - i,
        {
            if crate::util::str_eq(self.gates[i].0.as_str(), name) {
                return Some(&self.gates[i].1);
            }
            i = i + 1;
        }
        None
    }

    /// The position of a gate, by name, for callers that mutate it in
    /// place.
    pub fn find(&self, name: &str) -> (r: Option<usize>)
        ensures
            match r {
                Some(i) => i < self.gates@.len() && (self.gates@[i as int].0)@ == name@,
                None => forall|i: int|
                    0 <= i < self.gates@.len() ==> (#[trigger] self.gates@[i].0)@ != name@,
            },
    {
        let mut i: usize = 0;
        while i < self.gates.len()
            invariant
                i <= self.gates@.len(),
                forall|k: int| 0 <= k < i ==> (#[trigger] self.gates@[k].0)@ != name@,
            decreases self.gates@.len() - i,
        {
            if crate::util::str_eq(self.gates[i].0.as_str(), name) {
                return Some(i);
            }
            i = i + 1;
        }
        None
    }
}

} // verus!
