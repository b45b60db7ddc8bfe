//! What the host and in-process panels say to each other. Panels get logical identifiers and
//! device-independent lengths, never handles of windows.

use vstd::prelude::*;

verus! {

/// One activation of a panel.
#[derive(Clone, Copy, Debug, PartialEq, Eq, Hash, Structural)]
pub struct InstanceKey {
    pub id: u128,
    pub activation: u64,
}

/// One mount of an activation in a window.
#[derive(Clone, Copy, Debug, PartialEq, Eq, Hash, Structural)]
pub struct MountKey {
    pub instance: InstanceKey,
    pub generation: u64,
}

#[derive(Clone, Copy, Debug, PartialEq, Eq, Hash, Structural)]
pub struct ScopeId(pub u64);

#[derive(Clone, Copy, Debug, PartialEq, Eq, Hash, Structural)]
pub struct Token(pub u64);

/// How much of itself a panel shows.
#[derive(Clone, Copy, Debug, PartialEq, Eq, Structural)]
pub enum Presentation {
    Workspace,
    Compact,
    Capsule,
}

impl Default for Presentation {
    fn default() -> (r: Self)
        ensures
            r == Presentation::Workspace,
    {
        Presentation::Workspace
    }
}

#[derive(Debug, PartialEq, Eq)]
pub enum Error {
    Closed,
    Revoked,
    Invalid(String),
    Backend(String),
    Exhausted,
    Duplicate,
    DependencyCycle,
}

impl Clone for Error {
    fn clone(&self) -> (r: Self)
        ensures
            r == *self,
    {
        match self {
            Error::Closed => Error::Closed,
            Error::Revoked => Error::Revoked,
            Error::Invalid(m) => Error::Invalid(m.clone()),
            Error::Backend(m) => Error::Backend(m.clone()),
            Error::Exhausted => Error::Exhausted,
            Error::Duplicate => Error::Duplicate,
            Error::DependencyCycle => Error::DependencyCycle,
        }
    }
}

/// What an error says.
pub open spec fn message_of(e: Error) -> Seq<char> {
    match e {
        Error::Closed => "scope is closed"@,
        Error::Revoked => "capability is revoked"@,
        Error::Invalid(m) => m@,
        Error::Backend(m) => m@,
        Error::Exhausted => "generation counter exhausted"@,
        Error::Duplicate => "duplicate registration"@,
        Error::DependencyCycle => "service dependency cycle"@,
    }
}

impl Error {
    /// What the error says.
    pub fn message(&self) -> (r: String)
        ensures
            r@ == message_of(*self),
    {
        match self {
            Error::Closed => "scope is closed".to_owned(),
            Error::Revoked => "capability is revoked".to_owned(),
            Error::Invalid(m) => m.clone(),
            Error::Backend(m) => m.clone(),
            Error::Exhausted => "generation counter exhausted".to_owned(),
            Error::Duplicate => "duplicate registration".to_owned(),
            Error::DependencyCycle => "service dependency cycle".to_owned(),
        }
    }
}

/// The request was invalid, with this message.
pub open spec fn is_invalid(e: Error, message: Seq<char>) -> bool {
    e matches Error::Invalid(m) && m@ == message
}

// ---- scopes -------------------------------------------------------------------------------

/// What a scope says of itself. Scopes of the host and stand-ins for them provide it.
pub trait ScopeLease {
    /// What the scope says when it is asked.
    spec fn state(&self) -> LeaseState;

    fn id(&self) -> (r: ScopeId)
        ensures
            r == self.state().id,
    ;

    fn generation(&self) -> (r: u64)
        ensures
            r == self.state().generation,
    ;

    fn is_open(&self) -> (r: bool)
        ensures
            r == self.state().open,
    ;
}

/// What a lease said when it was asked.
#[derive(Clone, Copy, Debug, PartialEq, Eq, Structural)]
pub struct LeaseState {
    pub id: ScopeId,
    pub generation: u64,
    pub open: bool,
}

/// Asks a lease.
pub fn ask<L: ScopeLease>(lease: &L) -> (r: LeaseState)
    ensures
        r == lease.state(),
{
    LeaseState { id: lease.id(), generation: lease.generation(), open: lease.is_open() }
}

/// Stands for a scope, and does not keep it alive. What it stands for is passed to it again when
/// it is used: nothing where the scope is gone.
#[derive(Clone, Copy, Debug, PartialEq, Eq, Structural)]
pub struct ScopeHandle {
    pub id: ScopeId,
    pub generation: u64,
}

/// The lease is that of the handle's scope, which is there and open.
pub open spec fn is_live(h: ScopeHandle, now: Option<LeaseState>) -> bool {
    now matches Some(l) && l.open && l.id == h.id && l.generation == h.generation
}

impl ScopeHandle {
    /// The handle of the scope with this lease.
    pub fn from_lease<L: ScopeLease>(lease: &L) -> (r: Self)
        ensures
            r == (ScopeHandle { id: lease.state().id, generation: lease.state().generation }),
    {
        ScopeHandle::of(ask(lease))
    }

    /// The handle of a scope with a lease in this state.
    pub fn of(lease: LeaseState) -> (r: Self)
        ensures
            r == (ScopeHandle { id: lease.id, generation: lease.generation }),
    {
        ScopeHandle { id: lease.id, generation: lease.generation }
    }

    /// The scope, where it is open.
    pub fn check(&self, now: Option<LeaseState>) -> (r: Result<ScopeId, Error>)
        ensures
            r == if is_live(*self, now) {
                Ok::<ScopeId, Error>(self.id)
            } else {
                Err(Error::Closed)
            },
    {
        match now {
            Some(l) => if l.open && l.id == self.id && l.generation == self.generation {
                Ok(self.id)
            } else {
                Err(Error::Closed)
            },
            None => Err(Error::Closed),
        }
    }

    /// The generation of the scope, where it is open.
    pub fn generation(&self, now: Option<LeaseState>) -> (r: Result<u64, Error>)
        ensures
            r == if is_live(*self, now) {
                Ok::<u64, Error>(self.generation)
            } else {
                Err(Error::Closed)
            },
    {
        match self.check(now) {
            Ok(_) => Ok(self.generation),
            Err(e) => Err(e),
        }
    }
}

// ---- services -----------------------------------------------------------------------------

/// A service as its registry holds it. Panels only get a [`Capability`].
pub struct ServiceCell<S> {
    generation: u64,
    ready: bool,
    service: S,
}

impl<S> ServiceCell<S> {
    pub closed spec fn number(&self) -> u64 {
        self.generation
    }

    pub closed spec fn is_ready(&self) -> bool {
        self.ready
    }

    pub closed spec fn held(&self) -> S {
        self.service
    }

    pub fn new(generation: u64, service: S) -> (r: Self)
        ensures
            r.number() == generation,
            r.is_ready(),
            r.held() == service,
    {
        ServiceCell { generation, ready: true, service }
    }

    /// Ends the use of the service.
    pub fn revoke(&mut self)
        ensures
            !final(self).is_ready(),
            final(self).number() == old(self).number(),
            final(self).held() == old(self).held(),
    {
        self.ready = false;
    }

    pub fn generation(&self) -> (r: u64)
        ensures
            r == self.number(),
    {
        self.generation
    }

    /// Whether the service can still be used.
    pub fn ready(&self) -> (r: bool)
        ensures
            r == self.is_ready(),
    {
        self.ready
    }
}

/// The right to use one generation of a service, as long as the scope that holds it is open.
#[derive(Clone, Copy, Debug, PartialEq, Eq, Structural)]
pub struct Capability {
    generation: u64,
    consumer: ScopeHandle,
}

impl Capability {
    pub closed spec fn number(&self) -> u64 {
        self.generation
    }

    pub closed spec fn holder(&self) -> ScopeHandle {
        self.consumer
    }

    pub fn new<S>(cell: &ServiceCell<S>, consumer: ScopeHandle) -> (r: Self)
        ensures
            r.number() == cell.number(),
            r.holder() == consumer,
    {
        Capability { generation: cell.generation, consumer }
    }

    pub fn generation(&self) -> (r: u64)
        ensures
            r == self.number(),
    {
        self.generation
    }

    /// Calls the service. `cell` is where the registry holds it now, nothing where it is gone, and
    /// `now` is the state of the scope that holds the right.
    pub fn with<S, R, F: FnOnce(&S) -> Result<R, Error>>(
        &self,
        cell: Option<&ServiceCell<S>>,
        now: Option<LeaseState>,
        call: F,
    ) -> (r: Result<R, Error>)
        requires
            cell matches Some(s) ==> call.requires((&s.held(),)),
        ensures
            !is_live(self.holder(), now) ==> r == Err::<R, Error>(Error::Closed),
            is_live(self.holder(), now) ==> match cell {
                Some(s) if s.is_ready() && s.number() == self.number() => call.ensures(
                    (&s.held(),),
                    r,
                ),
                _ => r == Err::<R, Error>(Error::Revoked),
            },
    {
        match self.consumer.check(now) {
            Ok(_) => {},
            Err(e) => {
                return Err(e);
            },
        }
        match cell {
            Some(s) => {
                if !s.ready || s.generation != self.generation {
                    return Err(Error::Revoked);
                }
                call(&s.service)
            },
            None => Err(Error::Revoked),
        }
    }
}

/// What panels ask of a backend.
#[derive(Debug, PartialEq, Eq)]
pub struct Query {
    pub endpoint: String,
    pub payload: Vec<u8>,
}

/// Where a panel leads to outside of the application.
#[derive(Debug, PartialEq, Eq)]
pub struct ExternalTarget {
    pub system: String,
    pub https_uri: String,
}

/// A stored value and how often it was written.
#[derive(Debug, PartialEq, Eq)]
pub struct VersionedValue {
    pub revision: u64,
    pub bytes: Vec<u8>,
}

pub trait DesktopService {
    fn request_mode(&mut self, instance: InstanceKey, mode: Presentation) -> Result<(), Error>;
}

pub trait IpcService {
    fn subscribe(&mut self, scope: ScopeHandle, query: Query) -> Result<Token, Error>;

    fn send(&mut self, scope: ScopeHandle, payload: Vec<u8>) -> Result<Token, Error>;

    fn cancel(&mut self, token: Token) -> Result<(), Error>;
}

pub trait StorageService {
    fn read(&mut self, scope: ScopeHandle, key: &str) -> Result<Token, Error>;

    fn compare_and_set(
        &mut self,
        scope: ScopeHandle,
        key: &str,
        expected: Option<u64>,
        bytes: Vec<u8>,
    ) -> Result<Token, Error>;
}

pub trait NavigationService {
    fn open(&mut self, scope: ScopeHandle, target: ExternalTarget) -> Result<Token, Error>;
}

pub trait ClipboardService {
    fn write_text(&mut self, scope: ScopeHandle, text: String) -> Result<Token, Error>;
}

// ---- panels -------------------------------------------------------------------------------

/// What a provider of panels says of itself.
#[derive(Debug, PartialEq, Eq)]
pub struct ProviderDescriptor {
    pub id: String,
    pub api_major: u16,
    pub config_major: u16,
    pub required_services: Vec<String>,
}

/// A panel's settings, as its provider wrote them.
#[derive(Debug, PartialEq, Eq)]
pub struct PanelConfig {
    pub version: u16,
    pub bytes: Vec<u8>,
}

pub struct CreatePanel {
    pub key: InstanceKey,
    pub config: PanelConfig,
}

/// What a panel is told.
#[derive(Debug, PartialEq, Eq)]
pub enum PanelEvent {
    Invoke { action: u64, layout_revision: u64 },
    Snapshot { subscription: Token, bytes: Vec<u8> },
    Completion { operation: Token, result: Result<Vec<u8>, Error> },
    ThemeChanged { revision: u64 },
    VisibilityChanged { visible: bool },
    SuspendInput,
}

/// What a panel asks of its host.
#[derive(Debug, PartialEq, Eq)]
pub enum HostCommand {
    Invalidate,
    SetTitle(String),
    RequestMode(Presentation),
}

/// What a panel answers an event with.
#[derive(Debug, PartialEq, Eq)]
pub struct PanelUpdate {
    pub commands: Vec<HostCommand>,
    pub relayout: bool,
}

impl Default for PanelUpdate {
    fn default() -> (r: Self)
        ensures
            r.commands@ == Seq::<HostCommand>::empty(),
            !r.relayout,
    {
        PanelUpdate { commands: Vec::new(), relayout: false }
    }
}

/// Why a panel ends.
#[derive(Clone, Copy, Debug, PartialEq, Eq, Structural)]
pub enum StopReason {
    Disabled,
    Deleted,
    Reconfigured,
    DependencyLost,
    Shutdown,
}

} // verus!
