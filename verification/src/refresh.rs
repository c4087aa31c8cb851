//! The continuous refresh loop: select a batch of candidates, make sure of a
//! valid token, fetch the batch through a bounded pool, and begin again.
//!
//! The loop is a state machine. Its caller carries out each action (a query,
//! a sleep, a token exchange, a fetch) and reports what came of it; what
//! happens next is decided here.
use crate::pool::{Admission, Pool, PoolModel};
use crate::scheduler::RateLimiter;
use crate::selector::{Candidate, SelectorConfig};
use crate::token::{
    exchange_result, held_after, holds_valid, AuthError, AuthToken, TokenManager, TOKEN_RETRY_SECS,
};
use vstd::prelude::*;

verus! {

/// Number of fetches that the refresh loop holds in flight.
pub const NUMBER_OF_CONCURRENT_SCRAPES: usize = 3;

/// Seconds to pause after a batch that was not plenty.
pub const PAUSE_SECS: u64 = 60;

/// Seconds to wait before a failed selection is tried again.
pub const SELECTION_RETRY_SECS: u64 = 1;

/// A character with the Unicode property White_Space.
pub open spec fn is_white_space(c: char) -> bool {
    let n = c as u32;
    ||| 0x09 <= n <= 0x0D
    ||| n == 0x20
    ||| n == 0x85
    ||| n == 0xA0
    ||| n == 0x1680
    ||| 0x2000 <= n <= 0x200A
    ||| n == 0x2028
    ||| n == 0x2029
    ||| n == 0x202F
    ||| n == 0x205F
    ||| n == 0x3000
}

/// A text of nothing but white space; the empty text is blank.
pub open spec fn is_blank(text: Seq<char>) -> bool {
    forall|i: int| 0 <= i < text.len() ==> is_white_space(#[trigger] text[i])
}

/// A configured value is usable when it is present and not blank.
pub open spec fn is_usable(value: Option<String>) -> bool {
    value matches Some(text) && !is_blank(text@)
}

/// Whether `c` has the Unicode property White_Space.
pub fn white_space(c: char) -> (white: bool)
    ensures
        white == is_white_space(c),
{
    let n = c as u32;
    (0x09 <= n && n <= 0x0D) || n == 0x20 || n == 0x85 || n == 0xA0 || n == 0x1680 || (0x2000 <= n
        && n <= 0x200A) || n == 0x2028 || n == 0x2029 || n == 0x202F || n == 0x205F || n == 0x3000
}

/// Whether `text` holds nothing but white space.
pub fn blank(text: &str) -> (blank: bool)
    ensures
        blank == is_blank(text@),
{
    let n = text.unicode_len();
    let mut i: usize = 0;
    while i < n
        invariant
            i <= n,
            n == text@.len(),
            forall|j: int| 0 <= j < i ==> is_white_space(#[trigger] text@[j]),
        decreases n - i,
    {
        if !white_space(text.get_char(i)) {
            return false;
        }
        i = i + 1;
    }
    true
}

/// The two configured credentials for the upstream API.
#[derive(Debug)]
pub struct Credentials {
    pub client_id: String,
    pub client_secret: String,
}

impl Credentials {
    /// Which credential is missing, the client id being looked at first.
    pub open spec fn missing(client_id: Option<String>, client_secret: Option<String>) -> Option<
        AuthError,
    > {
        if !is_usable(client_id) {
            Some(AuthError::MissingClientId)
        } else if !is_usable(client_secret) {
            Some(AuthError::MissingClientSecret)
        } else {
            None
        }
    }

    /// Accepts the configured credentials where both are present and neither
    /// is blank, and says which one is missing where not.
    pub fn check(client_id: Option<String>, client_secret: Option<String>) -> (checked: Result<
        Credentials,
        AuthError,
    >)
        ensures
            match checked {
                Ok(credentials) => {
                    &&& Self::missing(client_id, client_secret) is None
                    &&& Some(credentials.client_id) == client_id
                    &&& Some(credentials.client_secret) == client_secret
                },
                Err(error) => Self::missing(client_id, client_secret) == Some(error),
            },
    {
        let id = match client_id {
            Some(id) => id,
            None => {
                return Err(AuthError::MissingClientId);
            },
        };
        if blank(id.as_str()) {
            return Err(AuthError::MissingClientId);
        }
        let secret = match client_secret {
            Some(secret) => secret,
            None => {
                return Err(AuthError::MissingClientSecret);
            },
        };
        if blank(secret.as_str()) {
            return Err(AuthError::MissingClientSecret);
        }
        Ok(Credentials { client_id: id, client_secret: secret })
    }
}

/// The store could not be asked for candidates.
#[derive(Clone, Copy, Debug, PartialEq, Eq, Structural)]
pub enum SelectionError {
    StoreUnreachable,
}

/// Where the loop stands.
#[derive(Clone, Copy, Debug, PartialEq, Eq, Structural)]
pub enum Phase {
    /// The configuration is unusable; the loop does nothing any more.
    Halted,
    /// The store is being asked for candidates.
    Selecting,
    /// The store could not be asked; the loop waits before it asks again.
    RetryingSelection,
    /// The batch was not plenty; the loop pauses before it fetches it.
    Pausing,
    /// The identity provider is being asked for a token.
    Authorizing,
    /// The identity provider gave no valid token; the loop waits before it
    /// asks again.
    RetryingToken,
    /// The batch is being fetched.
    Fetching,
}

/// What the caller of the loop has to do next.
#[derive(Debug)]
pub enum RefreshAction {
    /// Log the configuration error and stop: nothing is to be fetched.
    Fatal { error: AuthError },
    /// Ask the store for at most `limit` candidates and report the answer.
    Select { limit: usize },
    /// Sleep for `secs` seconds and report that they have passed.
    Sleep { secs: u64 },
    /// Ask the identity provider for a token and report the answer.
    Exchange,
    /// Stay suspended for `delay_ms` milliseconds, start the fetch for
    /// `candidate` with the token, which is valid at the moment of this
    /// action, and ask for the next action.
    Start { candidate: Candidate, delay_ms: u64 },
    /// Wait for a fetch in flight to complete and report it.
    Await,
    /// What was reported is not what the loop waited for. Nothing changed.
    Ignored,
}

/// What the caller of the loop reports.
pub enum RefreshEvent {
    /// The store's answer to a selection: the batch, or nothing where the
    /// store could not be asked.
    Selected { batch: Option<Seq<Candidate>> },
    /// The seconds of a sleep have passed.
    Woke,
    /// The identity provider's answer to a token exchange.
    Token { reply: Result<AuthToken, AuthError> },
    /// A fetch in flight has completed.
    Completed,
    /// A fetch was started; the caller asks what to do next.
    Next,
}

/// The state of the loop.
pub struct RefreshModel {
    pub phase: Phase,
    pub pool: PoolModel<Candidate>,
    pub token: Option<AuthToken>,
    pub cfg: SelectorConfig,
    pub spacing_ms: u64,
}

impl RefreshModel {
    /// The pool holds no more fetches in flight than the loop allows, and
    /// none at all unless the loop is fetching.
    pub open spec fn wf(self) -> bool {
        &&& self.pool.wf()
        &&& self.pool.capacity == NUMBER_OF_CONCURRENT_SCRAPES
        &&& self.phase != Phase::Fetching ==> self.pool.in_flight == 0
    }

    /// The loop begins a new cycle by asking for candidates.
    pub open spec fn begin_cycle(self) -> (RefreshModel, RefreshAction) {
        (
            RefreshModel { phase: Phase::Selecting, ..self },
            RefreshAction::Select { limit: self.cfg.limit },
        )
    }

    /// While fetching, at the moment `now`: the next candidate is started
    /// while one waits, a slot is free and the token is valid; else the loop
    /// awaits a completion; and once nothing waits and nothing is in flight,
    /// the next cycle begins. Where a candidate could start but the token has
    /// run out, none starts: the loop lets what is in flight complete and
    /// then asks the identity provider.
    pub open spec fn fetch_step(self, now: i64) -> (RefreshModel, RefreshAction) {
        let fetching = RefreshModel { phase: Phase::Fetching, ..self };
        if self.pool.can_admit() && holds_valid(self.token, now) {
            (
                RefreshModel { pool: self.pool.after_poll(), ..fetching },
                RefreshAction::Start {
                    candidate: self.pool.supply.last(),
                    delay_ms: self.spacing_ms,
                },
            )
        } else if self.pool.in_flight > 0 {
            (fetching, RefreshAction::Await)
        } else if self.pool.can_admit() {
            (RefreshModel { phase: Phase::Authorizing, ..self }, RefreshAction::Exchange)
        } else {
            self.begin_cycle()
        }
    }

    /// Before a batch is fetched: with a valid token the fetching begins,
    /// without one the identity provider is asked.
    pub open spec fn authorize_step(self, now: i64) -> (RefreshModel, RefreshAction) {
        if holds_valid(self.token, now) {
            self.fetch_step(now)
        } else {
            (RefreshModel { phase: Phase::Authorizing, ..self }, RefreshAction::Exchange)
        }
    }

    /// The store answered. Where it could not be asked, the selection is
    /// tried again after a short wait. A batch that is not plenty is fetched
    /// after a pause, any other at once.
    pub open spec fn on_selection(self, batch: Option<Seq<Candidate>>, now: i64) -> (
        RefreshModel,
        RefreshAction,
    ) {
        if self.phase != Phase::Selecting {
            (self, RefreshAction::Ignored)
        } else {
            match batch {
                None => (
                    RefreshModel { phase: Phase::RetryingSelection, ..self },
                    RefreshAction::Sleep { secs: SELECTION_RETRY_SECS },
                ),
                Some(candidates) => {
                    let filled = RefreshModel {
                        pool: PoolModel { supply: candidates, in_flight: 0, ..self.pool },
                        ..self
                    };
                    if candidates.len() < self.cfg.plenty {
                        (
                            RefreshModel { phase: Phase::Pausing, ..filled },
                            RefreshAction::Sleep { secs: PAUSE_SECS },
                        )
                    } else {
                        filled.authorize_step(now)
                    }
                },
            }
        }
    }

    /// A sleep is over: what was waited for is taken up again.
    pub open spec fn on_wake(self, now: i64) -> (RefreshModel, RefreshAction) {
        match self.phase {
            Phase::RetryingSelection => self.begin_cycle(),
            Phase::Pausing => self.authorize_step(now),
            Phase::RetryingToken => (
                RefreshModel { phase: Phase::Authorizing, ..self },
                RefreshAction::Exchange,
            ),
            _ => (self, RefreshAction::Ignored),
        }
    }

    /// The identity provider answered. With a valid token the fetching
    /// begins; without one the exchange is tried again after a fixed wait,
    /// whatever the error.
    pub open spec fn on_token(self, reply: Result<AuthToken, AuthError>, now: i64) -> (
        RefreshModel,
        RefreshAction,
    ) {
        if self.phase != Phase::Authorizing {
            (self, RefreshAction::Ignored)
        } else {
            let held = RefreshModel { token: held_after(self.token, reply, now), ..self };
            if exchange_result(reply, now) is Ok {
                held.fetch_step(now)
            } else {
                (
                    RefreshModel { phase: Phase::RetryingToken, ..held },
                    RefreshAction::Sleep { secs: TOKEN_RETRY_SECS },
                )
            }
        }
    }

    /// A fetch completed: its slot is free, and the fetching goes on.
    pub open spec fn on_completion(self, now: i64) -> (RefreshModel, RefreshAction) {
        if self.phase != Phase::Fetching || self.pool.in_flight == 0 {
            (self, RefreshAction::Ignored)
        } else {
            (RefreshModel { pool: self.pool.after_release(Seq::empty()), ..self }).fetch_step(now)
        }
    }

    /// A fetch was started: the fetching goes on.
    pub open spec fn on_next(self, now: i64) -> (RefreshModel, RefreshAction) {
        if self.phase != Phase::Fetching {
            (self, RefreshAction::Ignored)
        } else {
            self.fetch_step(now)
        }
    }

    /// The state and the action after `event` was reported at `now`.
    pub open spec fn step(self, event: RefreshEvent, now: i64) -> (RefreshModel, RefreshAction) {
        match event {
            RefreshEvent::Selected { batch } => self.on_selection(batch, now),
            RefreshEvent::Woke => self.on_wake(now),
            RefreshEvent::Token { reply } => self.on_token(reply, now),
            RefreshEvent::Completed => self.on_completion(now),
            RefreshEvent::Next => self.on_next(now),
        }
    }

    /// The state after a sequence of events, each with the moment at which it
    /// was reported.
    pub open spec fn run(self, events: Seq<(RefreshEvent, i64)>) -> RefreshModel
        decreases events.len(),
    {
        if events.len() == 0 {
            self
        } else {
            self.run(events.drop_last()).step(events.last().0, events.last().1).0
        }
    }

    /// The state and the first action of a loop that is started with the
    /// given configuration: with a credential missing it is halted for good.
    pub open spec fn initial(
        missing: Option<AuthError>,
        cfg: SelectorConfig,
        spacing_ms: u64,
    ) -> (RefreshModel, RefreshAction) {
        let idle = RefreshModel {
            phase: Phase::Halted,
            pool: PoolModel {
                supply: Seq::empty(),
                in_flight: 0,
                capacity: NUMBER_OF_CONCURRENT_SCRAPES as nat,
            },
            token: None,
            cfg,
            spacing_ms,
        };
        match missing {
            Some(error) => (idle, RefreshAction::Fatal { error }),
            None => idle.begin_cycle(),
        }
    }
}

/// The batch that a selection reported, if it reported one.
pub open spec fn batch_of(selection: Result<Vec<Candidate>, SelectionError>) -> Option<
    Seq<Candidate>,
> {
    match selection {
        Ok(batch) => Some(batch@),
        Err(_) => None,
    }
}

/// The continuous refresh loop.
pub struct RefreshLoop {
    phase: Phase,
    pool: Pool<Candidate>,
    tokens: TokenManager,
    credentials: Option<Credentials>,
    cfg: SelectorConfig,
    limiter: RateLimiter,
}

impl View for RefreshLoop {
    type V = RefreshModel;

    closed spec fn view(&self) -> RefreshModel {
        RefreshModel {
            phase: self.phase,
            pool: self.pool@,
            token: self.tokens@,
            cfg: self.cfg,
            spacing_ms: self.limiter.spacing_ms,
        }
    }
}

impl RefreshLoop {
    /// The state of the loop is well formed, and the loop holds its
    /// credentials unless it is halted.
    pub closed spec fn wf(&self) -> bool {
        &&& self@.wf()
        &&& self.phase != Phase::Halted ==> self.credentials is Some
    }

    /// The credentials that the loop was started with, if they were usable.
    pub closed spec fn spec_credentials(&self) -> Option<Credentials> {
        self.credentials
    }

    /// In a well-formed loop the bound on concurrency holds.
    pub proof fn lemma_wf(&self)
        requires
            self.wf(),
        ensures
            self@.wf(),
            self@.pool.in_flight <= NUMBER_OF_CONCURRENT_SCRAPES,
            self@.phase != Phase::Halted ==> self.spec_credentials() is Some,
    {
    }

    /// Starts the loop with the configured credentials. Where one of them is
    /// missing or blank, the loop is halted and the error is to be logged;
    /// else the first selection is due.
    pub fn start(
        client_id: Option<String>,
        client_secret: Option<String>,
        cfg: SelectorConfig,
        limiter: RateLimiter,
    ) -> (started: (RefreshLoop, RefreshAction))
        ensures
            started.0.wf(),
            (started.0@, started.1) == RefreshModel::initial(
                Credentials::missing(client_id, client_secret),
                cfg,
                limiter.spacing_ms,
            ),
            Credentials::missing(client_id, client_secret) is None ==> started.0.spec_credentials()
                == Some(Credentials { client_id: client_id->0, client_secret: client_secret->0 }),
    {
        let pool = Pool::with_slots(NUMBER_OF_CONCURRENT_SCRAPES, Vec::new());
        let tokens = TokenManager::new();
        match Credentials::check(client_id, client_secret) {
            Ok(credentials) => {
                let limit = cfg.limit;
                (
                    RefreshLoop {
                        phase: Phase::Selecting,
                        pool,
                        tokens,
                        credentials: Some(credentials),
                        cfg,
                        limiter,
                    },
                    RefreshAction::Select { limit },
                )
            },
            Err(error) => (
                RefreshLoop { phase: Phase::Halted, pool, tokens, credentials: None, cfg, limiter },
                RefreshAction::Fatal { error },
            ),
        }
    }

    /// Where the loop stands.
    pub fn phase(&self) -> (phase: Phase)
        ensures
            phase == self@.phase,
    {
        self.phase
    }

    /// Number of fetches in flight.
    pub fn in_flight(&self) -> (in_flight: usize)
        ensures
            in_flight == self@.pool.in_flight,
    {
        self.pool.in_flight()
    }

    /// The credentials that the loop was started with, if they were usable.
    pub fn credentials(&self) -> (credentials: Option<&Credentials>)
        ensures
            credentials is Some <==> self.spec_credentials() is Some,
            credentials matches Some(held) ==> *held == self.spec_credentials()->0,
    {
        self.credentials.as_ref()
    }

    /// The value of the token, while a valid one is held.
    pub fn token(&self, now: i64) -> (value: Option<&String>)
        ensures
            value is Some <==> holds_valid(self@.token, now),
            value matches Some(text) ==> *text == self@.token->0.value,
    {
        self.tokens.value(now)
    }

    fn begin_cycle(&mut self) -> (action: RefreshAction)
        requires
            old(self).wf(),
            old(self)@.phase != Phase::Halted,
            old(self)@.pool.in_flight == 0,
        ensures
            final(self).wf(),
            final(self).spec_credentials() == old(self).spec_credentials(),
            (final(self)@, action) == old(self)@.begin_cycle(),
    {
        self.phase = Phase::Selecting;
        RefreshAction::Select { limit: self.cfg.limit }
    }

    fn fetch_step(&mut self, now: i64) -> (action: RefreshAction)
        requires
            old(self).pool.wf(),
            old(self)@.pool.capacity == NUMBER_OF_CONCURRENT_SCRAPES,
            old(self).spec_credentials() is Some,
        ensures
            final(self).wf(),
            final(self).spec_credentials() == old(self).spec_credentials(),
            (final(self)@, action) == old(self)@.fetch_step(now),
    {
        let can_start = self.pool.waiting() > 0 && self.pool.in_flight() < self.pool.capacity();
        if can_start && self.tokens.ensure_valid(now).is_err() {
            if self.pool.in_flight() > 0 {
                self.phase = Phase::Fetching;
                RefreshAction::Await
            } else {
                self.phase = Phase::Authorizing;
                RefreshAction::Exchange
            }
        } else {
            self.phase = Phase::Fetching;
            match self.pool.poll() {
                Admission::Start(candidate) => RefreshAction::Start {
                    candidate,
                    delay_ms: self.limiter.wait(),
                },
                Admission::Await => RefreshAction::Await,
                Admission::Finished => {
                    self.phase = Phase::Selecting;
                    RefreshAction::Select { limit: self.cfg.limit }
                },
            }
        }
    }

    fn authorize_step(&mut self, now: i64) -> (action: RefreshAction)
        requires
            old(self).pool.wf(),
            old(self)@.pool.capacity == NUMBER_OF_CONCURRENT_SCRAPES,
            old(self)@.pool.in_flight == 0,
            old(self).spec_credentials() is Some,
        ensures
            final(self).wf(),
            final(self).spec_credentials() == old(self).spec_credentials(),
            (final(self)@, action) == old(self)@.authorize_step(now),
    {
        if self.tokens.ensure_valid(now).is_ok() {
            self.fetch_step(now)
        } else {
            self.phase = Phase::Authorizing;
            RefreshAction::Exchange
        }
    }

    /// Reports the store's answer to a selection, at the moment `now`.
    pub fn on_selection(&mut self, selection: Result<Vec<Candidate>, SelectionError>, now: i64) -> (action:
        RefreshAction)
        requires
            old(self).wf(),
        ensures
            final(self).wf(),
            final(self).spec_credentials() == old(self).spec_credentials(),
            (final(self)@, action) == old(self)@.on_selection(batch_of(selection), now),
            action is Start ==> holds_valid(final(self)@.token, now),
    {
        if !matches!(self.phase, Phase::Selecting) {
            return RefreshAction::Ignored;
        }
        match selection {
            Err(_) => {
                self.phase = Phase::RetryingSelection;
                RefreshAction::Sleep { secs: SELECTION_RETRY_SECS }
            },
            Ok(batch) => {
                let plenty = batch.len() >= self.cfg.plenty;
                self.pool = Pool::with_slots(NUMBER_OF_CONCURRENT_SCRAPES, batch);
                if plenty {
                    self.authorize_step(now)
                } else {
                    self.phase = Phase::Pausing;
                    RefreshAction::Sleep { secs: PAUSE_SECS }
                }
            },
        }
    }

    /// Reports that the seconds of a sleep have passed, at the moment `now`.
    pub fn on_wake(&mut self, now: i64) -> (action: RefreshAction)
        requires
            old(self).wf(),
        ensures
            final(self).wf(),
            final(self).spec_credentials() == old(self).spec_credentials(),
            (final(self)@, action) == old(self)@.on_wake(now),
            action is Start ==> holds_valid(final(self)@.token, now),
    {
        match self.phase {
            Phase::RetryingSelection => self.begin_cycle(),
            Phase::Pausing => self.authorize_step(now),
            Phase::RetryingToken => {
                self.phase = Phase::Authorizing;
                RefreshAction::Exchange
            },
            _ => RefreshAction::Ignored,
        }
    }

    /// Reports the identity provider's answer to a token exchange, at the
    /// moment `now`.
    pub fn on_token(&mut self, reply: Result<AuthToken, AuthError>, now: i64) -> (action:
        RefreshAction)
        requires
            old(self).wf(),
        ensures
            final(self).wf(),
            final(self).spec_credentials() == old(self).spec_credentials(),
            (final(self)@, action) == old(self)@.on_token(reply, now),
            action is Start ==> holds_valid(final(self)@.token, now),
    {
        if !matches!(self.phase, Phase::Authorizing) {
            return RefreshAction::Ignored;
        }
        match self.tokens.install(reply, now) {
            Ok(()) => self.fetch_step(now),
            Err(_) => {
                self.phase = Phase::RetryingToken;
                RefreshAction::Sleep { secs: TOKEN_RETRY_SECS }
            },
        }
    }

    /// Reports that a fetch in flight has completed, at the moment `now`.
    pub fn on_completion(&mut self, now: i64) -> (action: RefreshAction)
        requires
            old(self).wf(),
        ensures
            final(self).wf(),
            final(self).spec_credentials() == old(self).spec_credentials(),
            (final(self)@, action) == old(self)@.on_completion(now),
            action is Start ==> holds_valid(final(self)@.token, now),
    {
        if !matches!(self.phase, Phase::Fetching) {
            return RefreshAction::Ignored;
        }
        if !self.pool.release() {
            return RefreshAction::Ignored;
        }
        self.fetch_step(now)
    }

    /// Asks what to do next after a fetch was started, at the moment `now`.
    pub fn next(&mut self, now: i64) -> (action: RefreshAction)
        requires
            old(self).wf(),
        ensures
            final(self).wf(),
            final(self).spec_credentials() == old(self).spec_credentials(),
            (final(self)@, action) == old(self)@.on_next(now),
            action is Start ==> holds_valid(final(self)@.token, now),
    {
        if !matches!(self.phase, Phase::Fetching) {
            return RefreshAction::Ignored;
        }
        self.fetch_step(now)
    }
}

/// One event keeps a well-formed state well formed. A halted loop stays
/// halted and answers every event with `Ignored`; no loop starts a fetch that
/// would exceed its bound; and no fetch starts without a token that is valid
/// at that moment.
pub proof fn lemma_refresh_step(state: RefreshModel, event: RefreshEvent, now: i64)
    requires
        state.wf(),
    ensures
        state.step(event, now).0.wf(),
        state.step(event, now).0.pool.in_flight <= NUMBER_OF_CONCURRENT_SCRAPES,
        state.phase == Phase::Halted ==> state.step(event, now) == (state, RefreshAction::Ignored),
        state.step(event, now).1 is Start ==> state.step(event, now).0.phase == Phase::Fetching
            && state.step(event, now).0.pool.in_flight >= 1,
        state.step(event, now).1 is Start ==> holds_valid(state.step(event, now).0.token, now),
{
}

/// Whatever is reported to the loop, in whatever order: after every event the
/// number of fetches in flight is at most the bound, and a loop that was
/// halted at the outset is halted still, with nothing in flight.
pub proof fn lemma_refresh_run(state: RefreshModel, events: Seq<(RefreshEvent, i64)>)
    requires
        state.wf(),
    ensures
        state.run(events).wf(),
        forall|k: int|
            0 <= k <= events.len() ==> (#[trigger] state.run(events.take(k))).pool.in_flight
                <= NUMBER_OF_CONCURRENT_SCRAPES,
        state.phase == Phase::Halted ==> state.run(events) == state,
    decreases events.len(),
{
    if events.len() > 0 {
        let earlier = events.drop_last();
        lemma_refresh_run(state, earlier);
        lemma_refresh_step(state.run(earlier), events.last().0, events.last().1);
    }
    assert forall|k: int| 0 <= k <= events.len() implies (#[trigger] state.run(
        events.take(k),
    )).pool.in_flight <= NUMBER_OF_CONCURRENT_SCRAPES by {
        if k < events.len() {
            assert(events.take(k) =~= events.drop_last().take(k));
        } else {
            assert(events.take(k) =~= events);
        }
    }
}

} // verus!
