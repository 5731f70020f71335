//! The order of settings: which saved snapshot the engine has to apply, and
//! which running model preparation a newer snapshot calls off. Generations,
//! not the numbers of requests, decide what is newer.

use vstd::prelude::*;

verus! {

/// A saved settings snapshot that the engine has not applied yet.
#[derive(Debug)]
pub struct PendingConfig<C> {
    pub generation: u64,
    pub request_id: u64,
    pub config: C,
}

/// A model preparation that is under way.
#[derive(Debug)]
pub struct ActivePrepare {
    pub generation: u64,
    /// What names the preparation when it is called off.
    pub token: u64,
    /// The model and the language that it prepares.
    pub model: String,
    pub language: String,
}

/// Serializes the publication of settings with the engine's final commit. A
/// save is ordered wholly before or wholly after a commit.
#[derive(Debug)]
pub struct ConfigApplyCoordinator<C> {
    generation: u64,
    pending: Option<PendingConfig<C>>,
    active_prepare: Option<ActivePrepare>,
    next_token: u64,
}

/// What the coordinator knows.
pub struct CoordinatorView<C> {
    pub generation: u64,
    pub pending: Option<PendingConfig<C>>,
    pub active_prepare: Option<ActivePrepare>,
    pub next_token: u64,
}

impl<C> View for ConfigApplyCoordinator<C> {
    type V = CoordinatorView<C>;

    closed spec fn view(&self) -> CoordinatorView<C> {
        CoordinatorView {
            generation: self.generation,
            pending: self.pending,
            active_prepare: self.active_prepare,
            next_token: self.next_token,
        }
    }
}

/// The token of the preparation that is under way.
pub open spec fn active_token<C>(v: CoordinatorView<C>) -> Option<u64> {
    match v.active_prepare {
        Some(active) => Some(active.token),
        None => None,
    }
}

/// What every coordinator satisfies: nothing that it holds is newer than its
/// generation, and every token was handed out.
pub open spec fn coherent<C>(v: CoordinatorView<C>) -> bool {
    &&& v.pending is Some ==> v.pending->0.generation <= v.generation
    &&& v.active_prepare is Some ==> v.active_prepare->0.generation <= v.generation
    &&& v.active_prepare is Some ==> v.active_prepare->0.token < v.next_token
}

/// The coordinator after a save. A preparation of the same model is left to
/// finish; one of another model is called off.
pub open spec fn published<C>(
    v: CoordinatorView<C>,
    request_id: u64,
    config: C,
    same_route: bool,
) -> CoordinatorView<C> {
    let generation = (v.generation + 1) as u64;
    CoordinatorView {
        generation,
        pending: Some(PendingConfig { generation, request_id, config }),
        active_prepare: if same_route {
            v.active_prepare
        } else {
            None
        },
        next_token: v.next_token,
    }
}

/// Deferred work may be queued again: nothing as new or newer is waiting.
pub open spec fn may_requeue<C>(v: CoordinatorView<C>, deferred: PendingConfig<C>) -> bool {
    v.pending is None || v.pending->0.generation < deferred.generation
}

impl<C> ConfigApplyCoordinator<C> {
    /// A coordinator before the first save.
    pub fn new() -> (r: Self)
        ensures
            r@ == (CoordinatorView::<C> {
                generation: 0,
                pending: None,
                active_prepare: None,
                next_token: 0,
            }),
            coherent(r@),
    {
        ConfigApplyCoordinator {
            generation: 0,
            pending: None,
            active_prepare: None,
            next_token: 0,
        }
    }

    /// The model and the language of the preparation that is under way.
    pub fn active_route(&self) -> (r: Option<(&str, &str)>)
        ensures
            r is Some == self@.active_prepare is Some,
            match r {
                Some(route) => route.0@ == self@.active_prepare->0.model@ && route.1@
                    == self@.active_prepare->0.language@,
                None => true,
            },
    {
        match &self.active_prepare {
            Some(active) => Some((active.model.as_str(), active.language.as_str())),
            None => None,
        }
    }

    /// Publishes a saved snapshot. `same_route` says whether the preparation
    /// that is under way prepares the model of the snapshot. Gives the new
    /// generation and the token of the preparation to call off.
    pub fn publish(&mut self, request_id: u64, config: C, same_route: bool) -> (r: (
        u64,
        Option<u64>,
    ))
        requires
            old(self)@.generation < u64::MAX,
        ensures
            final(self)@ == published(old(self)@, request_id, config, same_route),
            r.0 == final(self)@.generation,
            r.1 == (if same_route {
                None
            } else {
                active_token(old(self)@)
            }),
            coherent(old(self)@) ==> coherent(final(self)@),
    {
        let cancelled = if same_route {
            None
        } else {
            self.cancel_prepare()
        };
        self.generation = self.generation + 1;
        self.pending = Some(PendingConfig { generation: self.generation, request_id, config });
        (self.generation, cancelled)
    }

    /// Calls off the preparation that is under way, and gives its token.
    pub fn cancel_prepare(&mut self) -> (r: Option<u64>)
        ensures
            r == active_token(old(self)@),
            final(self)@ == (CoordinatorView { active_prepare: None, ..old(self)@ }),
            coherent(old(self)@) ==> coherent(final(self)@),
    {
        match self.active_prepare.take() {
            Some(active) => Some(active.token),
            None => None,
        }
    }

    /// The generation of the last save.
    pub fn generation(&self) -> (r: u64)
        ensures
            r == self@.generation,
    {
        self.generation
    }

    /// Is that generation the last?
    pub fn is_current(&self, generation: u64) -> (r: bool)
        ensures
            r == (self@.generation == generation),
    {
        self.generation == generation
    }

    /// Takes the snapshot that is waiting.
    pub fn take_pending(&mut self) -> (r: Option<PendingConfig<C>>)
        ensures
            r == old(self)@.pending,
            final(self)@ == (CoordinatorView { pending: None, ..old(self)@ }),
            coherent(old(self)@) ==> coherent(final(self)@),
    {
        self.pending.take()
    }

    /// Puts work back that could not be done yet, unless something as new or
    /// newer is waiting by now.
    pub fn requeue_if_no_newer(&mut self, deferred: PendingConfig<C>) -> (r: bool)
        ensures
            r == may_requeue(old(self)@, deferred),
            final(self)@ == (if r {
                CoordinatorView { pending: Some(deferred), ..old(self)@ }
            } else {
                old(self)@
            }),
            coherent(old(self)@) && deferred.generation <= old(self)@.generation ==> coherent(
                final(self)@,
            ),
    {
        if let Some(pending) = &self.pending {
            if pending.generation >= deferred.generation {
                return false;
            }
        }
        self.pending = Some(deferred);
        true
    }

    /// Begins to prepare a model for that generation, unless it is not the last
    /// any more. Gives the token of the new preparation and that of the one to
    /// call off.
    pub fn begin_prepare(&mut self, generation: u64, model: &str, language: &str) -> (r: Option<
        (u64, Option<u64>),
    >)
        requires
            old(self)@.next_token < u64::MAX,
        ensures
            r is Some == (old(self)@.generation == generation),
            r is None ==> final(self)@ == old(self)@,
            match r {
                Some(tokens) => {
                    &&& tokens.0 == old(self)@.next_token
                    &&& tokens.1 == active_token(old(self)@)
                    &&& final(self)@.active_prepare is Some
                    &&& final(self)@.active_prepare->0.generation == generation
                    &&& final(self)@.active_prepare->0.token == tokens.0
                    &&& final(self)@.active_prepare->0.model@ == model@
                    &&& final(self)@.active_prepare->0.language@ == language@
                    &&& final(self)@ == (CoordinatorView {
                        active_prepare: final(self)@.active_prepare,
                        next_token: (old(self)@.next_token + 1) as u64,
                        ..old(self)@
                    })
                },
                None => true,
            },
            coherent(old(self)@) ==> coherent(final(self)@),
    {
        if !self.is_current(generation) {
            return None;
        }
        let cancelled = self.cancel_prepare();
        let token: u64 = self.next_token;
        self.next_token = token + 1;
        self.active_prepare = Some(
            ActivePrepare {
                generation,
                token,
                model: model.to_owned(),
                language: language.to_owned(),
            },
        );
        Some((token, cancelled))
    }

    /// The preparation for that generation has ended.
    pub fn finish_prepare(&mut self, generation: u64)
        ensures
            final(self)@ == (if old(self)@.active_prepare is Some
                && old(self)@.active_prepare->0.generation == generation {
                CoordinatorView { active_prepare: None, ..old(self)@ }
            } else {
                old(self)@
            }),
            coherent(old(self)@) ==> coherent(final(self)@),
    {
        let ended = match &self.active_prepare {
            Some(active) => active.generation == generation,
            None => false,
        };
        if ended {
            self.active_prepare = None;
        }
    }
}

/// Work for an earlier generation can neither pass for current after a save,
/// nor take the place of the snapshot that the save left waiting.
pub proof fn newer_save_stands<C>(
    v: CoordinatorView<C>,
    request_id: u64,
    config: C,
    same_route: bool,
    deferred: PendingConfig<C>,
)
    requires
        coherent(v),
        v.generation < u64::MAX,
        deferred.generation <= v.generation,
    ensures
        published(v, request_id, config, same_route).generation > v.generation,
        published(v, request_id, config, same_route).generation != deferred.generation,
        !may_requeue(published(v, request_id, config, same_route), deferred),
        published(v, request_id, config, same_route).pending->0.config == config,
{
}

/// A save that wants the same model leaves the running preparation alone.
pub proof fn same_route_save_keeps_the_preparation<C>(
    v: CoordinatorView<C>,
    request_id: u64,
    config: C,
)
    ensures
        published(v, request_id, config, true).active_prepare == v.active_prepare,
{
}

/// Settings that had to wait are put back exactly where no newer ones came meanwhile:
/// always where none wait, and never in place of newer ones.
pub proof fn deferred_settings_come_back<C>(
    v: CoordinatorView<C>,
    deferred: PendingConfig<C>,
)
    ensures
        v.pending is None ==> may_requeue(v, deferred),
        v.pending is Some && v.pending->0.generation < deferred.generation ==> may_requeue(
            v,
            deferred,
        ),
        v.pending is Some && v.pending->0.generation >= deferred.generation ==> !may_requeue(
            v,
            deferred,
        ),
{
}

/// Saved settings wait under their own request and under the newest generation, and a
/// preparation for another model or language is given up.
pub proof fn saved_settings_wait_for_the_engine<C>(
    v: CoordinatorView<C>,
    request_id: u64,
    config: C,
    same_route: bool,
)
    requires
        v.generation < u64::MAX,
    ensures
        ({
            let after = published(v, request_id, config, same_route);
            &&& after.generation == v.generation + 1
            &&& after.pending is Some
            &&& after.pending->0.request_id == request_id
            &&& after.pending->0.config == config
            &&& after.pending->0.generation == after.generation
            &&& !same_route ==> after.active_prepare is None
            &&& after.next_token == v.next_token
        }),
{
}

} // verus!
