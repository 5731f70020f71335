//! The state of the speech model that the settings page shows: a preparation that
//! runs, or the failure of the last one and when it is tried again.

use crate::clocks::{model_delay, moved_forward, next_count, ModelRetryBackoff};
use crate::config_apply::{active_token, coherent, ConfigApplyCoordinator, CoordinatorView};
use crate::reminder::optional_text;
use vstd::prelude::*;

verus! {

/// Why there is no model, and when the next attempt is due.
#[derive(Debug, PartialEq, Eq)]
pub struct ModelFailure {
    pub message: String,
    pub retry_at_ms: Option<u64>,
    pub downloaded: Option<(u64, u64)>,
    pub smaller_model: Option<String>,
}

/// The failure that is shown, where there is one.
#[derive(Debug)]
pub struct ModelSetup {
    pub failure: Option<ModelFailure>,
}

/// Where the answer to a save of the settings goes.
#[derive(Debug, Clone, Copy, PartialEq, Eq, Structural)]
pub enum ResultRoute {
    /// The page shows it, whoever saved.
    Page,
    /// It answers that request.
    Request(u64),
}

/// Where the answer goes: request zero is the program's own.
pub fn result_route(request_id: u64) -> (r: ResultRoute)
    ensures
        r == (if request_id == 0 {
            ResultRoute::Page
        } else {
            ResultRoute::Request(request_id)
        }),
{
    if request_id == 0 {
        ResultRoute::Page
    } else {
        ResultRoute::Request(request_id)
    }
}

/// May progress of that generation's download be shown?
pub fn shows_progress<C>(
    coordinator: &ConfigApplyCoordinator<C>,
    generation: u64,
    shutdown: bool,
) -> (r: bool)
    ensures
        r == (coordinator@.generation == generation && !shutdown),
{
    coordinator.is_current(generation) && !shutdown
}

impl ModelSetup {
    /// Nothing has failed yet.
    pub fn new() -> (r: Self)
        ensures
            r.failure is None,
    {
        ModelSetup { failure: None }
    }

    /// Begins to prepare a model, unless the program closes or a newer save stands.
    /// An attempt that begins takes the place of the failure before it; one that
    /// does not leaves it.
    pub fn begin_model_prepare<C>(
        &mut self,
        coordinator: &mut ConfigApplyCoordinator<C>,
        generation: u64,
        model: &str,
        language: &str,
        shutdown: bool,
    ) -> (r: Option<(u64, Option<u64>)>)
        requires
            old(coordinator)@.next_token < u64::MAX,
        ensures
            r is Some == (!shutdown && old(coordinator)@.generation == generation),
            match r {
                Some(tokens) => {
                    &&& final(self).failure is None
                    &&& tokens.0 == old(coordinator)@.next_token
                    &&& tokens.1 == active_token(old(coordinator)@)
                    &&& final(coordinator)@.active_prepare is Some
                    &&& final(coordinator)@.active_prepare->0.generation == generation
                    &&& final(coordinator)@.active_prepare->0.token == tokens.0
                    &&& final(coordinator)@.active_prepare->0.model@ == model@
                    &&& final(coordinator)@.active_prepare->0.language@ == language@
                    &&& final(coordinator)@ == (CoordinatorView {
                        active_prepare: final(coordinator)@.active_prepare,
                        next_token: (old(coordinator)@.next_token + 1) as u64,
                        ..old(coordinator)@
                    })
                },
                None => *final(self) == *old(self) && final(coordinator)@ == old(coordinator)@,
            },
            coherent(old(coordinator)@) ==> coherent(final(coordinator)@),
    {
        if shutdown {
            return None;
        }
        match coordinator.begin_prepare(generation, model, language) {
            Some(tokens) => {
                self.failure = None;
                Some(tokens)
            },
            None => None,
        }
    }

    /// A preparation failed: shows why, and says when it is tried again. The page
    /// counts down on the clock of the wall, which may be unknown.
    pub fn schedule_model_retry(
        &mut self,
        backoff: &mut ModelRetryBackoff,
        now_ms: u64,
        wall_ms: Option<u64>,
        downloaded: Option<(u64, u64)>,
        smaller_model: Option<String>,
        message: &str,
    ) -> (r: u64)
        requires
            now_ms + 600_000 <= u64::MAX,
            wall_ms is Some ==> wall_ms->0 + 600_000 <= u64::MAX,
        ensures
            ({
                let done = match downloaded {
                    Some(d) => Some(d.0),
                    None => None,
                };
                let failures = if moved_forward(old(backoff).downloaded, done) {
                    0
                } else {
                    old(backoff).failures
                };
                let delay = model_delay(failures as int);
                &&& r == now_ms + delay
                &&& *final(backoff) == (ModelRetryBackoff {
                    failures: next_count(failures),
                    downloaded: done,
                })
                &&& final(self).failure is Some
                &&& final(self).failure->0.message@ == message@
                &&& final(self).failure->0.downloaded == downloaded
                &&& optional_text(final(self).failure->0.smaller_model) == optional_text(
                    smaller_model,
                )
                &&& final(self).failure->0.retry_at_ms == (match wall_ms {
                    Some(wall) => Some((wall + delay) as u64),
                    None => None,
                })
            }),
    {
        let done: Option<u64> = match downloaded {
            Some(d) => Some(d.0),
            None => None,
        };
        let retry_at: u64 = backoff.next_deadline_after(now_ms, done);
        let retry_at_ms: Option<u64> = match wall_ms {
            Some(wall) => Some(wall + (retry_at - now_ms)),
            None => None,
        };
        self.failure = Some(
            ModelFailure { message: message.to_owned(), retry_at_ms, downloaded, smaller_model },
        );
        retry_at
    }
}

} // verus!
