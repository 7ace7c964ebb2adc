//! Recoverable projection delivery across isolated account and management databases.
//!
//! Account databases append typed events to an outbox; the management database applies them in
//! sequence order, exactly once, keeping only privacy-safe fields. The database work is driven
//! from outside; the payload filter, the event constructors and the delivery decisions are here.
use crate::text::{blank, is_blank, text_eq};
use vstd::prelude::*;
use vstd::string::StrSliceExecFns;

verus! {

/// Coarse location precision allowed outside the account database.
#[derive(Clone, Copy, Debug, PartialEq, Eq, Structural)]
pub enum ProjectionLocationPrecision {
    /// No location data.
    Hidden,
    /// Country only.
    Country,
    /// Region only.
    Region,
    /// Locality only; exact coordinates are never projected.
    Locality,
}

impl ProjectionLocationPrecision {
    /// The stored name of the precision.
    pub fn as_str(self) -> (r: &'static str)
        ensures
            r@ == match self {
                ProjectionLocationPrecision::Hidden => "hidden"@,
                ProjectionLocationPrecision::Country => "country"@,
                ProjectionLocationPrecision::Region => "region"@,
                ProjectionLocationPrecision::Locality => "locality"@,
            },
    {
        match self {
            ProjectionLocationPrecision::Hidden => "hidden",
            ProjectionLocationPrecision::Country => "country",
            ProjectionLocationPrecision::Region => "region",
            ProjectionLocationPrecision::Locality => "locality",
        }
    }
}

/// Visibility retained by a safe management projection.
#[derive(Clone, Copy, Debug, PartialEq, Eq, Structural)]
pub enum ProjectionVisibility {
    /// Must not be represented by a discoverable projection.
    Private,
    /// Addressable with authorization but excluded from public discovery.
    Unlisted,
    /// Eligible for public discovery.
    Public,
}

impl ProjectionVisibility {
    /// The stored name of the visibility.
    pub fn as_str(self) -> (r: &'static str)
        ensures
            r@ == match self {
                ProjectionVisibility::Private => "private"@,
                ProjectionVisibility::Unlisted => "unlisted"@,
                ProjectionVisibility::Public => "public"@,
            },
    {
        match self {
            ProjectionVisibility::Private => "private",
            ProjectionVisibility::Unlisted => "unlisted",
            ProjectionVisibility::Public => "public",
        }
    }
}

/// Lifecycle state permitted in discovery projections.
#[derive(Clone, Copy, Debug, PartialEq, Eq, Structural)]
pub enum ProjectionActivityState {
    /// Active system.
    Active,
    /// Archived system.
    Archived,
    /// Administratively disabled system.
    Disabled,
}

impl ProjectionActivityState {
    /// The stored name of the state.
    pub fn as_str(self) -> (r: &'static str)
        ensures
            r@ == match self {
                ProjectionActivityState::Active => "active"@,
                ProjectionActivityState::Archived => "archived"@,
                ProjectionActivityState::Disabled => "disabled"@,
            },
    {
        match self {
            ProjectionActivityState::Active => "active",
            ProjectionActivityState::Archived => "archived",
            ProjectionActivityState::Disabled => "disabled",
        }
    }
}

/// Reason a management projection must be hidden before an account privacy change.
#[derive(Clone, Copy, Debug, PartialEq, Eq, Structural)]
pub enum ProjectionInvalidationReason {
    /// Public or unlisted visibility is being reduced.
    VisibilityReduction,
    /// Authoritative system deletion is beginning.
    SystemDeletion,
    /// Account access is being suspended.
    AccountSuspension,
    /// Operator-directed consistency repair.
    OperatorRepair,
}

impl ProjectionInvalidationReason {
    /// The stored name of the reason.
    pub fn as_str(self) -> (r: &'static str)
        ensures
            r@ == match self {
                ProjectionInvalidationReason::VisibilityReduction => "visibility_reduction"@,
                ProjectionInvalidationReason::SystemDeletion => "system_deletion"@,
                ProjectionInvalidationReason::AccountSuspension => "account_suspension"@,
                ProjectionInvalidationReason::OperatorRepair => "operator_repair"@,
            },
    {
        match self {
            ProjectionInvalidationReason::VisibilityReduction => "visibility_reduction",
            ProjectionInvalidationReason::SystemDeletion => "system_deletion",
            ProjectionInvalidationReason::AccountSuspension => "account_suspension",
            ProjectionInvalidationReason::OperatorRepair => "operator_repair",
        }
    }
}

/// The kind of an outbox event.
#[derive(Clone, Copy, Debug, PartialEq, Eq, Structural)]
pub enum ProjectionEventKind {
    Upsert,
    Invalidate,
    Delete,
}

pub open spec fn event_kind_name(k: ProjectionEventKind) -> Seq<char> {
    match k {
        ProjectionEventKind::Upsert => "upsert"@,
        ProjectionEventKind::Invalidate => "invalidate"@,
        ProjectionEventKind::Delete => "delete"@,
    }
}

impl ProjectionEventKind {
    /// The stored name of the kind.
    pub fn as_str(self) -> (r: &'static str)
        ensures
            r@ == event_kind_name(self),
    {
        match self {
            ProjectionEventKind::Upsert => "upsert",
            ProjectionEventKind::Invalidate => "invalidate",
            ProjectionEventKind::Delete => "delete",
        }
    }

    /// The kind with the given stored name.
    pub fn parse(value: &str) -> (r: Result<Self, ProjectionError>)
        ensures
            match r {
                Ok(k) => event_kind_name(k) == value@,
                Err(e) => e is InvalidProjectionPayload && value@ != "upsert"@ && value@ != "invalidate"@
                    && value@ != "delete"@,
            },
    {
        if text_eq(value, "upsert") {
            Ok(ProjectionEventKind::Upsert)
        } else if text_eq(value, "invalidate") {
            Ok(ProjectionEventKind::Invalidate)
        } else if text_eq(value, "delete") {
            Ok(ProjectionEventKind::Delete)
        } else {
            Err(ProjectionError::InvalidProjectionPayload)
        }
    }
}

/// Distinct event kinds have distinct stored names, so every kind reads back as itself.
pub proof fn event_kind_names_are_distinct(a: ProjectionEventKind, b: ProjectionEventKind)
    ensures
        event_kind_name(a) == event_kind_name(b) ==> a == b,
        event_kind_name(a) == "upsert"@ || event_kind_name(a) == "invalidate"@ || event_kind_name(a) == "delete"@,
{
    reveal_strlit("upsert");
    reveal_strlit("invalidate");
    reveal_strlit("delete");
    assert("upsert"@.len() == 6 && "invalidate"@.len() == 10 && "delete"@.len() == 6);
    assert("upsert"@[0] == 'u' && "delete"@[0] == 'd');
}

/// Failure while recording or reconciling cross-database projections. Failures of the
/// databases, of account routing and of payload serialization carry their message.
#[derive(Clone, Debug, PartialEq, Eq)]
pub enum ProjectionError {
    Sqlx(String),
    Routing(String),
    Json(String),
    InvalidProjectionPayload,
    PrivacyReservationRequired,
    InvalidPrivacyReservation,
    SequenceGap { expected: i64, actual: i64 },
    SequenceConflict(i64),
    ProjectionOwnershipConflict,
    ClockOutOfRange,
}

/// Privacy-filtered system fields permitted in the management database.
#[derive(Clone, Debug, PartialEq, Eq)]
pub struct SystemDiscoveryProjection {
    /// System represented by this projection.
    pub system_id: u128,
    /// Public or unlisted display label.
    pub display_name: String,
    /// Optional two-letter country code for a public system.
    pub country_code: Option<String>,
    /// Optional coarse location label for a public system.
    pub location_label: Option<String>,
    /// Maximum location precision explicitly permitted for projection.
    pub location_precision: ProjectionLocationPrecision,
    /// Effective system capacity.
    pub capacity_watts: i64,
    /// Cross-account visibility.
    pub visibility: ProjectionVisibility,
    /// Public lifecycle representation.
    pub activity_state: ProjectionActivityState,
}

/// A projection with its text as character sequences.
pub struct ProjectionView {
    pub system_id: u128,
    pub display_name: Seq<char>,
    pub country_code: Option<Seq<char>>,
    pub location_label: Option<Seq<char>>,
    pub location_precision: ProjectionLocationPrecision,
    pub capacity_watts: i64,
    pub visibility: ProjectionVisibility,
    pub activity_state: ProjectionActivityState,
}

pub open spec fn opt_text(s: Option<String>) -> Option<Seq<char>> {
    match s {
        Some(t) => Some(t@),
        None => None,
    }
}

impl View for SystemDiscoveryProjection {
    type V = ProjectionView;

    open spec fn view(&self) -> ProjectionView {
        ProjectionView {
            system_id: self.system_id,
            display_name: self.display_name@,
            country_code: opt_text(self.country_code),
            location_label: opt_text(self.location_label),
            location_precision: self.location_precision,
            capacity_watts: self.capacity_watts,
            visibility: self.visibility,
            activity_state: self.activity_state,
        }
    }
}

/// A country code is two ASCII characters.
pub open spec fn country_code_valid(c: Seq<char>) -> bool {
    c.len() == 2 && vstd::utf8::is_ascii_chars(c)
}

/// The payload is acceptable: a non-blank name, a non-negative capacity, and a valid country
/// code when one is given.
pub open spec fn projection_acceptable(p: ProjectionView) -> bool {
    &&& !blank(p.display_name)
    &&& p.capacity_watts >= 0
    &&& (p.country_code matches Some(c) ==> country_code_valid(c))
}

/// The fields kept outside the account database: nothing of the location unless the system is
/// public, and no location data (country code or label) when the public system hides its
/// location.
pub open spec fn privacy_filter(p: ProjectionView) -> ProjectionView {
    if p.visibility != ProjectionVisibility::Public {
        ProjectionView {
            country_code: None,
            location_label: None,
            location_precision: ProjectionLocationPrecision::Hidden,
            ..p
        }
    } else if p.location_precision == ProjectionLocationPrecision::Hidden {
        ProjectionView { country_code: None, location_label: None, ..p }
    } else {
        p
    }
}

impl SystemDiscoveryProjection {
    /// Rejects unsafe payloads and drops the location fields that the visibility does not allow.
    pub fn privacy_filtered(self) -> (r: Result<Self, ProjectionError>)
        ensures
            match r {
                Ok(p) => projection_acceptable(self@) && p@ == privacy_filter(self@),
                Err(e) => !projection_acceptable(self@) && e is InvalidProjectionPayload,
            },
    {
        let mut this = self;
        if is_blank(this.display_name.as_str()) || this.capacity_watts < 0 {
            return Err(ProjectionError::InvalidProjectionPayload);
        }
        let country_bad = match &this.country_code {
            Some(country) => {
                let c = country.as_str();
                !c.is_ascii() || c.unicode_len() != 2
            },
            None => false,
        };
        if country_bad {
            return Err(ProjectionError::InvalidProjectionPayload);
        }
        if this.visibility != ProjectionVisibility::Public {
            this.country_code = None;
            this.location_label = None;
            this.location_precision = ProjectionLocationPrecision::Hidden;
        } else if this.location_precision == ProjectionLocationPrecision::Hidden {
            this.country_code = None;
            this.location_label = None;
        }
        Ok(this)
    }
}

/// Typed account-local event written in the same transaction as authoritative changes.
#[derive(Clone, Debug, PartialEq, Eq)]
pub struct SystemProjectionEvent {
    kind: ProjectionEventKind,
    system_id: u128,
    projection: Option<SystemDiscoveryProjection>,
    privacy_reducing: bool,
    invalidation_id: Option<u128>,
}

impl SystemProjectionEvent {
    pub closed spec fn kind_spec(&self) -> ProjectionEventKind {
        self.kind
    }

    pub closed spec fn system_id_spec(&self) -> u128 {
        self.system_id
    }

    pub closed spec fn projection_spec(&self) -> Option<ProjectionView> {
        match self.projection {
            Some(p) => Some(p@),
            None => None,
        }
    }

    pub closed spec fn privacy_reducing_spec(&self) -> bool {
        self.privacy_reducing
    }

    pub closed spec fn invalidation_id_spec(&self) -> Option<u128> {
        self.invalidation_id
    }

    /// Builds a privacy-filtered upsert event. A privacy-reducing upsert, such as public to
    /// unlisted, requires an invalidation reservation made before the authoritative account
    /// transaction begins.
    pub fn upsert(
        projection: SystemDiscoveryProjection,
        privacy_reducing: bool,
        invalidation_id: Option<u128>,
    ) -> (r: Result<Self, ProjectionError>)
        ensures
            match r {
                Ok(ev) => !(privacy_reducing && invalidation_id is None) && projection_acceptable(
                    projection@,
                ) && ev.kind_spec() == ProjectionEventKind::Upsert && ev.system_id_spec()
                    == projection.system_id && ev.projection_spec() == Some(privacy_filter(projection@))
                    && ev.privacy_reducing_spec() == privacy_reducing && ev.invalidation_id_spec()
                    == invalidation_id,
                Err(e) => if privacy_reducing && invalidation_id is None {
                    e is PrivacyReservationRequired
                } else {
                    !projection_acceptable(projection@) && e is InvalidProjectionPayload
                },
            },
    {
        if privacy_reducing && invalidation_id.is_none() {
            return Err(ProjectionError::PrivacyReservationRequired);
        }
        let projection = match projection.privacy_filtered() {
            Ok(p) => p,
            Err(e) => return Err(e),
        };
        Ok(
            SystemProjectionEvent {
                kind: ProjectionEventKind::Upsert,
                system_id: projection.system_id,
                projection: Some(projection),
                privacy_reducing,
                invalidation_id,
            },
        )
    }

    /// Builds an invalidation event that keeps authoritative account data intact.
    pub fn invalidate(system_id: u128, invalidation_id: u128) -> (r: Self)
        ensures
            r.kind_spec() == ProjectionEventKind::Invalidate,
            r.system_id_spec() == system_id,
            r.projection_spec() is None,
            r.privacy_reducing_spec(),
            r.invalidation_id_spec() == Some(invalidation_id),
    {
        SystemProjectionEvent {
            kind: ProjectionEventKind::Invalidate,
            system_id,
            projection: None,
            privacy_reducing: true,
            invalidation_id: Some(invalidation_id),
        }
    }

    /// Builds a deletion event after a privacy invalidation reservation.
    pub fn delete(system_id: u128, invalidation_id: u128) -> (r: Self)
        ensures
            r.kind_spec() == ProjectionEventKind::Delete,
            r.system_id_spec() == system_id,
            r.projection_spec() is None,
            r.privacy_reducing_spec(),
            r.invalidation_id_spec() == Some(invalidation_id),
    {
        SystemProjectionEvent {
            kind: ProjectionEventKind::Delete,
            system_id,
            projection: None,
            privacy_reducing: true,
            invalidation_id: Some(invalidation_id),
        }
    }

    pub fn kind(&self) -> (r: ProjectionEventKind)
        ensures
            r == self.kind_spec(),
    {
        self.kind
    }

    pub fn system_id(&self) -> (r: u128)
        ensures
            r == self.system_id_spec(),
    {
        self.system_id
    }

    pub fn projection(&self) -> (r: Option<&SystemDiscoveryProjection>)
        ensures
            match r {
                Some(p) => self.projection_spec() == Some(p@),
                None => self.projection_spec() is None,
            },
    {
        match &self.projection {
            Some(p) => Some(p),
            None => None,
        }
    }

    pub fn privacy_reducing(&self) -> (r: bool)
        ensures
            r == self.privacy_reducing_spec(),
    {
        self.privacy_reducing
    }

    pub fn invalidation_id(&self) -> (r: Option<u128>)
        ensures
            r == self.invalidation_id_spec(),
    {
        self.invalidation_id
    }
}

/// Summary of one bounded reconciliation pass.
#[derive(Clone, Copy, Debug, Default, PartialEq, Eq, Structural)]
pub struct ProjectionReconciliationReport {
    /// Newly applied events.
    pub applied: u32,
    /// Events already present in the management inbox.
    pub duplicates: u32,
    /// Highest sequence observed in this pass.
    pub last_sequence: Option<i64>,
}

/// What the management side does with the next outbox event, given its applied checkpoint.
#[derive(Clone, Copy, Debug, PartialEq, Eq, Structural)]
pub enum DeliveryStep {
    /// The sequence was applied before: accept it only if the inbox holds the same event.
    CheckDuplicate,
    /// The sequence is the next one: apply it.
    Apply,
}

/// Delivery of sequence `s` against checkpoint `applied`: earlier sequences are replays, the
/// next one is applied, anything later is a gap, and a privacy-reducing event needs its
/// reservation.
pub open spec fn delivery_of(applied: i64, s: i64, privacy_reducing: bool, has_reservation: bool) -> Result<
    DeliveryStep,
    ProjectionError,
> {
    if s <= applied {
        Ok(DeliveryStep::CheckDuplicate)
    } else if s != applied + 1 {
        Err(ProjectionError::SequenceGap { expected: (applied + 1) as i64, actual: s })
    } else if privacy_reducing && !has_reservation {
        Err(ProjectionError::PrivacyReservationRequired)
    } else {
        Ok(DeliveryStep::Apply)
    }
}

/// Decides what happens to the next event of an account outbox.
pub fn delivery_step(applied: i64, sequence: i64, privacy_reducing: bool, has_reservation: bool) -> (r: Result<
    DeliveryStep,
    ProjectionError,
>)
    ensures
        r == delivery_of(applied, sequence, privacy_reducing, has_reservation),
{
    if sequence <= applied {
        return Ok(DeliveryStep::CheckDuplicate);
    }
    let expected = applied + 1;
    if sequence != expected {
        return Err(ProjectionError::SequenceGap { expected, actual: sequence });
    }
    if privacy_reducing && !has_reservation {
        return Err(ProjectionError::PrivacyReservationRequired);
    }
    Ok(DeliveryStep::Apply)
}

/// A replayed sequence is accepted only when the inbox holds the same event and payload.
pub fn duplicate_outcome(sequence: i64, same_event: bool) -> (r: Result<(), ProjectionError>)
    ensures
        r is Ok <==> same_event,
        r matches Err(e) ==> e == ProjectionError::SequenceConflict(sequence),
{
    if same_event {
        Ok(())
    } else {
        Err(ProjectionError::SequenceConflict(sequence))
    }
}

/// What an applied event does to the discovery projection of its system.
#[derive(Clone, Debug, PartialEq, Eq)]
pub enum ProjectionChange {
    /// Remove the system's projection.
    Remove,
    /// Store this projection.
    Store(SystemDiscoveryProjection),
}

/// The change an event makes: invalidations and deletions remove the projection; an upsert
/// stores its filtered payload, or removes the projection of a private system. The payload must
/// belong to the event's system.
pub fn projection_change(kind: ProjectionEventKind, system_id: u128, payload: Option<SystemDiscoveryProjection>) -> (r:
    Result<ProjectionChange, ProjectionError>)
    ensures
        kind != ProjectionEventKind::Upsert ==> (r matches Ok(c) && c == ProjectionChange::Remove),
        kind == ProjectionEventKind::Upsert ==> match payload {
            None => (r matches Err(e) && e is InvalidProjectionPayload),
            Some(p) => match r {
                Ok(c) => projection_acceptable(p@) && p.system_id == system_id && match c {
                    ProjectionChange::Remove => privacy_filter(p@).visibility == ProjectionVisibility::Private,
                    ProjectionChange::Store(q) => privacy_filter(p@).visibility != ProjectionVisibility::Private
                        && q@ == privacy_filter(p@),
                },
                Err(e) => e is InvalidProjectionPayload && (!projection_acceptable(p@) || p.system_id
                    != system_id),
            },
        },
{
    if kind != ProjectionEventKind::Upsert {
        return Ok(ProjectionChange::Remove);
    }
    let projection = match payload {
        Some(p) => p,
        None => return Err(ProjectionError::InvalidProjectionPayload),
    };
    let projection = match projection.privacy_filtered() {
        Ok(p) => p,
        Err(e) => return Err(e),
    };
    if projection.system_id != system_id {
        return Err(ProjectionError::InvalidProjectionPayload);
    }
    if projection.visibility == ProjectionVisibility::Private {
        Ok(ProjectionChange::Remove)
    } else {
        Ok(ProjectionChange::Store(projection))
    }
}

/// A privacy-reducing event must consume exactly one open reservation.
pub fn check_reservation_resolved(privacy_reducing: bool, rows_resolved: u64) -> (r: Result<(), ProjectionError>)
    ensures
        r is Ok <==> (!privacy_reducing || rows_resolved == 1),
        r matches Err(e) ==> e is InvalidPrivacyReservation,
{
    if privacy_reducing && rows_resolved != 1 {
        Err(ProjectionError::InvalidPrivacyReservation)
    } else {
        Ok(())
    }
}

/// A stored projection must belong to the account that writes it.
pub fn check_projection_stored(rows_written: u64) -> (r: Result<(), ProjectionError>)
    ensures
        r is Ok <==> rows_written == 1,
        r matches Err(e) ==> e is ProjectionOwnershipConflict,
{
    if rows_written != 1 {
        Err(ProjectionError::ProjectionOwnershipConflict)
    } else {
        Ok(())
    }
}

impl ProjectionReconciliationReport {
    /// An empty report.
    pub fn new() -> (r: Self)
        ensures
            r.applied == 0,
            r.duplicates == 0,
            r.last_sequence is None,
    {
        ProjectionReconciliationReport { applied: 0, duplicates: 0, last_sequence: None }
    }

    /// The report of a pass that first repaired `repaired` deliveries already applied; the count
    /// saturates at `u32::MAX`.
    pub fn with_repaired(repaired: u64) -> (r: Self)
        ensures
            r.applied == 0,
            r.duplicates == (if repaired > u32::MAX { u32::MAX as int } else { repaired as int }),
            r.last_sequence is None,
    {
        let duplicates: u32 = if repaired > u32::MAX as u64 {
            u32::MAX
        } else {
            repaired as u32
        };
        ProjectionReconciliationReport { applied: 0, duplicates, last_sequence: None }
    }

    /// Records one delivered event.
    pub fn record(&mut self, step: DeliveryStep, sequence: i64)
        requires
            step == DeliveryStep::Apply ==> old(self).applied < u32::MAX,
            step == DeliveryStep::CheckDuplicate ==> old(self).duplicates < u32::MAX,
        ensures
            final(self).applied == old(self).applied + (if step == DeliveryStep::Apply { 1int } else { 0 }),
            final(self).duplicates == old(self).duplicates + (if step == DeliveryStep::CheckDuplicate {
                1int
            } else {
                0
            }),
            final(self).last_sequence == Some(sequence),
    {
        match step {
            DeliveryStep::Apply => self.applied = self.applied + 1,
            DeliveryStep::CheckDuplicate => self.duplicates = self.duplicates + 1,
        }
        self.last_sequence = Some(sequence);
    }
}

/// Exactly-once delivery: once an event has been applied, the checkpoint has reached its
/// sequence, and delivering it again is a replay that can only be accepted as a duplicate,
/// never applied twice. Only the next sequence can be applied, so no event is skipped.
pub proof fn delivery_is_exactly_once(applied: i64, s: i64, privacy_reducing: bool, has_reservation: bool)
    requires
        delivery_of(applied, s, privacy_reducing, has_reservation) == Ok::<DeliveryStep, ProjectionError>(
            DeliveryStep::Apply,
        ),
    ensures
        s == applied + 1,
        forall|p: bool, h: bool| delivery_of(s, s, p, h) == Ok::<DeliveryStep, ProjectionError>(DeliveryStep::CheckDuplicate),
        forall|t: i64, p: bool, h: bool| t <= s ==> delivery_of(s, t, p, h) == Ok::<DeliveryStep, ProjectionError>(
            DeliveryStep::CheckDuplicate,
        ),
        forall|t: i64, p: bool, h: bool| t > s + 1 ==> delivery_of(s, t, p, h) is Err,
{
}

/// Filtering a filtered projection changes nothing, no filtered projection that is not public
/// carries location data, and no filtered projection with hidden precision carries any.
pub proof fn privacy_filter_is_idempotent(p: ProjectionView)
    ensures
        privacy_filter(privacy_filter(p)) == privacy_filter(p),
        privacy_filter(p).visibility != ProjectionVisibility::Public ==> privacy_filter(p).country_code is None
            && privacy_filter(p).location_label is None && privacy_filter(p).location_precision
            == ProjectionLocationPrecision::Hidden,
        privacy_filter(p).location_precision == ProjectionLocationPrecision::Hidden ==> privacy_filter(
            p,
        ).country_code is None && privacy_filter(p).location_label is None,
        projection_acceptable(p) ==> projection_acceptable(privacy_filter(p)),
{
}

} // verus!
