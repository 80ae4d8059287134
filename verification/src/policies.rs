//! Policy revisions: what they ask for, how they are told apart, and what the
//! events of a run say has become of them.

use vstd::prelude::*;

use crate::ieee::Single;
use crate::json::{
    json_views, opt_json, texts_among, texts_in, Json, JsonView,
};
use crate::sort::{
    inserted, sorted, sorting_orders_and_permutes, stable_sort, views, Ranked,
};
use crate::text::{opt_text, owned, same, texts};
use crate::timeline::{event_views, payloads_of, read_payloads, EventView, TimelineEvent};

verus! {

/// The event that a revision was made.
pub const POLICY_CREATED: &'static str = "policy_revision_created";

/// The event that the deployment of a revision was asked for.
pub const POLICY_DEPLOY_REQUESTED: &'static str = "policy_deployment_requested";

/// The event that the deployment of a revision was carried out.
pub const POLICY_DEPLOY_ACKNOWLEDGED: &'static str = "policy_deployment_acknowledged";

/// The event that the deployment of a revision was turned down.
pub const POLICY_DEPLOY_REJECTED: &'static str = "policy_deployment_rejected";

/// The event that the return to a revision was asked for.
pub const POLICY_ROLLBACK_REQUESTED: &'static str = "policy_rollback_requested";

/// The event that the return to a revision was carried out.
pub const POLICY_ROLLBACK_ACKNOWLEDGED: &'static str = "policy_rollback_acknowledged";

/// The event that the return to a revision was turned down.
pub const POLICY_ROLLBACK_REJECTED: &'static str = "policy_rollback_rejected";

/// The event that a revision was held against the log.
pub const POLICY_REPLAY_EVALUATED: &'static str = "policy_replay_evaluated";

/// The event that something entered a restricted zone.
pub const RESTRICTED_ZONE_EVENT: &'static str = "restricted_zone_activity_entered";

/// A part of the image, in fractions of its width and height.
#[derive(Clone, Copy, Debug, PartialEq, Eq, Structural)]
pub struct NormalizedRect {
    pub x: Single,
    pub y: Single,
    pub width: Single,
    pub height: Single,
}

/// A zone that nothing should enter, and when that counts.
#[derive(Debug)]
pub struct RestrictedZoneParameters {
    pub policy_id: String,
    pub policy_version: u64,
    pub device_id: String,
    pub region: NormalizedRect,
    pub enter_motion_score: Single,
    pub exit_motion_score: Single,
    pub enter_after_frames: u16,
    pub exit_after_frames: u16,
}

/// What a zone is.
pub ghost struct ZoneView {
    pub policy_id: Seq<char>,
    pub policy_version: u64,
    pub device_id: Seq<char>,
    pub region: NormalizedRect,
    pub enter_motion_score: Single,
    pub exit_motion_score: Single,
    pub enter_after_frames: u16,
    pub exit_after_frames: u16,
}

impl View for RestrictedZoneParameters {
    type V = ZoneView;

    open spec fn view(&self) -> ZoneView {
        ZoneView {
            policy_id: self.policy_id@,
            policy_version: self.policy_version,
            device_id: self.device_id@,
            region: self.region,
            enter_motion_score: self.enter_motion_score,
            exit_motion_score: self.exit_motion_score,
            enter_after_frames: self.enter_after_frames,
            exit_after_frames: self.exit_after_frames,
        }
    }
}

/// The parameters of a policy.
#[derive(Debug)]
pub struct PolicyParameters {
    pub restricted_zone: Option<RestrictedZoneParameters>,
}

impl View for PolicyParameters {
    type V = Option<ZoneView>;

    open spec fn view(&self) -> Option<ZoneView> {
        match self.restricted_zone {
            Some(z) => Some(z@),
            None => None,
        }
    }
}

impl RestrictedZoneParameters {
    /// The same zone once more.
    pub fn copy(&self) -> (r: Self)
        ensures
            r@ == self@,
    {
        RestrictedZoneParameters {
            policy_id: owned(self.policy_id.as_str()),
            policy_version: self.policy_version,
            device_id: owned(self.device_id.as_str()),
            region: self.region,
            enter_motion_score: self.enter_motion_score,
            exit_motion_score: self.exit_motion_score,
            enter_after_frames: self.enter_after_frames,
            exit_after_frames: self.exit_after_frames,
        }
    }
}

impl PolicyParameters {
    /// Parameters that ask for nothing.
    pub fn none() -> (r: Self)
        ensures
            r@ is None,
    {
        PolicyParameters { restricted_zone: None }
    }

    /// The same parameters once more.
    pub fn copy(&self) -> (r: Self)
        ensures
            r@ == self@,
    {
        match &self.restricted_zone {
            Some(z) => PolicyParameters { restricted_zone: Some(z.copy()) },
            None => PolicyParameters { restricted_zone: None },
        }
    }
}

/// How far a revision has come.
#[derive(Clone, Copy, Debug, PartialEq, Eq, Structural)]
pub enum PolicyStatus {
    Draft,
    Shadow,
    Canary,
    Active,
    Retired,
    RolledBack,
}

impl PolicyStatus {
    /// The name of a status.
    pub open spec fn name(self) -> Seq<char> {
        match self {
            PolicyStatus::Draft => "draft"@,
            PolicyStatus::Shadow => "shadow"@,
            PolicyStatus::Canary => "canary"@,
            PolicyStatus::Active => "active"@,
            PolicyStatus::Retired => "retired"@,
            PolicyStatus::RolledBack => "rolled_back"@,
        }
    }

    /// The name of a status.
    pub fn as_str(self) -> (r: &'static str)
        ensures
            r@ == self.name(),
    {
        match self {
            PolicyStatus::Draft => "draft",
            PolicyStatus::Shadow => "shadow",
            PolicyStatus::Canary => "canary",
            PolicyStatus::Active => "active",
            PolicyStatus::Retired => "retired",
            PolicyStatus::RolledBack => "rolled_back",
        }
    }

    /// The status of some name.
    pub open spec fn named(name: Seq<char>) -> Option<PolicyStatus> {
        if name == "draft"@ {
            Some(PolicyStatus::Draft)
        } else if name == "shadow"@ {
            Some(PolicyStatus::Shadow)
        } else if name == "canary"@ {
            Some(PolicyStatus::Canary)
        } else if name == "active"@ {
            Some(PolicyStatus::Active)
        } else if name == "retired"@ {
            Some(PolicyStatus::Retired)
        } else if name == "rolled_back"@ {
            Some(PolicyStatus::RolledBack)
        } else {
            None
        }
    }

    /// The status of some name.
    pub fn from_name(name: &str) -> (r: Option<PolicyStatus>)
        ensures
            r == PolicyStatus::named(name@),
    {
        if same(name, "draft") {
            Some(PolicyStatus::Draft)
        } else if same(name, "shadow") {
            Some(PolicyStatus::Shadow)
        } else if same(name, "canary") {
            Some(PolicyStatus::Canary)
        } else if same(name, "active") {
            Some(PolicyStatus::Active)
        } else if same(name, "retired") {
            Some(PolicyStatus::Retired)
        } else if same(name, "rolled_back") {
            Some(PolicyStatus::RolledBack)
        } else {
            None
        }
    }
}

/// A status is read back from its name.
pub proof fn status_names_are_read_back(status: PolicyStatus)
    ensures
        PolicyStatus::named(status.name()) == Some(status),
{
    reveal_strlit("draft");
    reveal_strlit("shadow");
    reveal_strlit("canary");
    reveal_strlit("active");
    reveal_strlit("retired");
    reveal_strlit("rolled_back");
    assert("draft"@.len() == 5 && "shadow"@.len() == 6 && "canary"@.len() == 6 && "active"@.len()
        == 6 && "retired"@.len() == 7 && "rolled_back"@.len() == 11);
    assert("shadow"@[0] == 's' && "canary"@[0] == 'c' && "active"@[0] == 'a');
}

/// Whether a revision may move from one status to another by a deployment: one
/// step at a time, from draft by shadow and canary to active.
pub fn valid_promotion(from: PolicyStatus, to: PolicyStatus) -> (r: bool)
    ensures
        r == may_move(from, to),
{
    match (from, to) {
        (PolicyStatus::Draft, PolicyStatus::Shadow) => true,
        (PolicyStatus::Shadow, PolicyStatus::Canary) => true,
        (PolicyStatus::Canary, PolicyStatus::Active) => true,
        _ => false,
    }
}

/// A deployment may move a revision from one status to another.
pub open spec fn may_move(from: PolicyStatus, to: PolicyStatus) -> bool {
    ||| from == PolicyStatus::Draft && to == PolicyStatus::Shadow
    ||| from == PolicyStatus::Shadow && to == PolicyStatus::Canary
    ||| from == PolicyStatus::Canary && to == PolicyStatus::Active
}

// ------------------------------------------------------------- decoding
/// Each field has one of some names.
pub open spec fn all_named(fields: Seq<(Seq<char>, JsonView)>, names: Seq<Seq<char>>) -> bool {
    forall|i: int| 0 <= i < fields.len() ==> names.contains((#[trigger] fields[i]).0)
}

/// The parts of a record whose parts have these names: in this order in an
/// array, or by their names in an object that has no others.
pub open spec fn record_parts(v: JsonView, names: Seq<Seq<char>>) -> Option<Seq<Option<JsonView>>> {
    match v {
        JsonView::Array(items) => if items.len() == names.len() {
            Some(Seq::new(names.len(), |i: int| Some(items[i])))
        } else {
            None
        },
        JsonView::Object(fields) => if all_named(fields, names) {
            Some(Seq::new(names.len(), |i: int| v.get(names[i])))
        } else {
            None
        },
        _ => None,
    }
}

fn is_listed(names: &Vec<&'static str>, name: &str) -> (r: bool)
    ensures
        r == views(names@).contains(name@),
{
    let mut i: usize = 0;
    while i < names.len()
        invariant
            i <= names@.len(),
            forall|j: int| 0 <= j < i ==> #[trigger] views(names@)[j] != name@,
        decreases names@.len() - i,
    {
        if same(names[i], name) {
            assert(views(names@)[i as int] == name@);
            return true;
        }
        i += 1;
    }
    false
}

/// Which parts there are.
pub open spec fn opt_views(parts: Seq<Option<&Json>>) -> Seq<Option<JsonView>> {
    parts.map_values(
        |p: Option<&Json>|
            match p {
                Some(j) => Some(j@),
                None => None,
            },
    )
}

fn read_record<'a>(v: &'a Json, names: &Vec<&'static str>) -> (r: Option<Vec<Option<&'a Json>>>)
    ensures
        match r {
            Some(parts) => record_parts(v@, views(names@)) == Some(opt_views(parts@)),
            None => record_parts(v@, views(names@)) is None,
        },
{
    match v.as_array() {
        Some(items) => {
            if items.len() != names.len() {
                return None;
            }
            let mut parts: Vec<Option<&'a Json>> = Vec::new();
            let mut i: usize = 0;
            while i < items.len()
                invariant
                    i <= items@.len(),
                    parts@.len() == i,
                    forall|j: int| 0 <= j < i ==> #[trigger] parts@[j] == Some(&items@[j]),
                decreases items@.len() - i,
            {
                parts.push(Some(&items[i]));
                i += 1;
            }
            assert(opt_views(parts@) =~= record_parts(v@, views(names@))->0);
            return Some(parts);
        },
        None => {},
    }
    match v.fields() {
        Some(fields) => {
            let ghost fv = v@->Object_0;
            let mut i: usize = 0;
            while i < fields.len()
                invariant
                    i <= fields@.len(),
                    v@ == JsonView::Object(fv),
                    fv == crate::json::field_views(fields@),
                    forall|j: int|
                        0 <= j < i ==> views(names@).contains((#[trigger] fv[j]).0),
                decreases fields@.len() - i,
            {
                if !is_listed(names, fields[i].0.as_str()) {
                    assert(fv[i as int].0 == fields@[i as int].0@);
                    assert(fv.len() == fields@.len());
                    assert(!views(names@).contains(fv[i as int].0));
                    assert(!all_named(fv, views(names@)));
                    return None;
                }
                assert(fv[i as int].0 == fields@[i as int].0@);
                i += 1;
            }
            let mut parts: Vec<Option<&'a Json>> = Vec::new();
            let mut k: usize = 0;
            while k < names.len()
                invariant
                    k <= names@.len(),
                    parts@.len() == k,
                    forall|j: int|
                        0 <= j < k ==> #[trigger] opt_views(parts@)[j] == v@.get(views(names@)[j]),
                decreases names@.len() - k,
            {
                let ghost before = opt_views(parts@);
                parts.push(v.get(names[k]));
                assert forall|j: int| 0 <= j < k + 1 implies #[trigger] opt_views(parts@)[j]
                    == v@.get(views(names@)[j]) by {
                    if j < k {
                        assert(opt_views(parts@)[j] == before[j]);
                    }
                }
                k += 1;
            }
            assert(opt_views(parts@) =~= record_parts(v@, views(names@))->0);
            Some(parts)
        },
        None => None,
    }
}

/// The 32-bit fraction in a part.
pub open spec fn single_in(part: Option<JsonView>) -> Option<Single> {
    match part {
        Some(v) => v.as_single(),
        None => None,
    }
}

/// The whole number in a part.
pub open spec fn unsigned_in(part: Option<JsonView>) -> Option<u64> {
    match part {
        Some(v) => v.as_unsigned(),
        None => None,
    }
}

/// The whole number of 16 bits in a part.
pub open spec fn short_in(part: Option<JsonView>) -> Option<u16> {
    match unsigned_in(part) {
        Some(n) => if n <= u16::MAX {
            Some(n as u16)
        } else {
            None
        },
        None => None,
    }
}

/// The text in a part.
pub open spec fn text_in(part: Option<JsonView>) -> Option<Seq<char>> {
    match part {
        Some(v) => v.as_text(),
        None => None,
    }
}

/// The rectangle that a JSON value describes.
pub open spec fn rect_of(v: JsonView) -> Option<NormalizedRect> {
    match record_parts(v, seq!["x"@, "y"@, "width"@, "height"@]) {
        None => None,
        Some(p) => match (single_in(p[0]), single_in(p[1]), single_in(p[2]), single_in(p[3])) {
            (Some(x), Some(y), Some(width), Some(height)) => Some(
                NormalizedRect { x, y, width, height },
            ),
            _ => None,
        },
    }
}

/// The names of a zone's parts.
pub open spec fn zone_names() -> Seq<Seq<char>> {
    seq![
        "policy_id"@,
        "policy_version"@,
        "device_id"@,
        "region"@,
        "enter_motion_score"@,
        "exit_motion_score"@,
        "enter_after_frames"@,
        "exit_after_frames"@,
    ]
}

/// The rectangle in a part.
pub open spec fn rect_in(part: Option<JsonView>) -> Option<NormalizedRect> {
    match part {
        Some(v) => rect_of(v),
        None => None,
    }
}

/// The zone that a JSON value describes.
pub open spec fn zone_of(v: JsonView) -> Option<ZoneView> {
    match record_parts(v, zone_names()) {
        None => None,
        Some(p) => match (
            text_in(p[0]),
            unsigned_in(p[1]),
            text_in(p[2]),
            rect_in(p[3]),
            single_in(p[4]),
            single_in(p[5]),
            short_in(p[6]),
            short_in(p[7]),
        ) {
            (
                Some(policy_id),
                Some(policy_version),
                Some(device_id),
                Some(region),
                Some(enter_motion_score),
                Some(exit_motion_score),
                Some(enter_after_frames),
                Some(exit_after_frames),
            ) => Some(
                ZoneView {
                    policy_id,
                    policy_version,
                    device_id,
                    region,
                    enter_motion_score,
                    exit_motion_score,
                    enter_after_frames,
                    exit_after_frames,
                },
            ),
            _ => None,
        },
    }
}

/// The parameters that a JSON value describes; one that describes none stands
/// for parameters that ask for nothing.
pub open spec fn parameters_of(v: Option<JsonView>) -> Option<ZoneView> {
    match v {
        None => None,
        Some(v) => match record_parts(v, seq!["restricted_zone"@]) {
            None => None,
            Some(p) => match p[0] {
                Some(z) => zone_of(z),
                None => None,
            },
        },
    }
}

/// The status that a JSON value names: by a text, or by the one field of an
/// object that holds null.
pub open spec fn status_of(v: Option<JsonView>) -> Option<PolicyStatus> {
    match v {
        Some(JsonView::Text(name)) => PolicyStatus::named(name),
        Some(JsonView::Object(fields)) => if fields.len() == 1 && fields[0].1 is Null {
            PolicyStatus::named(fields[0].0)
        } else {
            None
        },
        _ => None,
    }
}

fn get_single(part: Option<&Json>) -> (r: Option<Single>)
    ensures
        r == single_in(opt_part(part)),
{
    match part {
        Some(v) => v.as_single(),
        None => None,
    }
}

/// What a part is.
pub open spec fn opt_part(part: Option<&Json>) -> Option<JsonView> {
    match part {
        Some(v) => Some(v@),
        None => None,
    }
}

fn get_unsigned(part: Option<&Json>) -> (r: Option<u64>)
    ensures
        r == unsigned_in(opt_part(part)),
{
    match part {
        Some(v) => v.as_u64(),
        None => None,
    }
}

fn get_short(part: Option<&Json>) -> (r: Option<u16>)
    ensures
        r == short_in(opt_part(part)),
{
    match get_unsigned(part) {
        Some(n) => if n <= 65535 {
            Some(n as u16)
        } else {
            None
        },
        None => None,
    }
}

fn get_text(part: Option<&Json>) -> (r: Option<String>)
    ensures
        opt_text(r) == text_in(opt_part(part)),
{
    match part {
        Some(v) => match v.as_str() {
            Some(s) => Some(owned(s)),
            None => None,
        },
        None => None,
    }
}

fn read_rect(part: Option<&Json>) -> (r: Option<NormalizedRect>)
    ensures
        r == rect_in(opt_part(part)),
{
    match part {
        None => None,
        Some(v) => {
            let names: Vec<&'static str> = vec!["x", "y", "width", "height"];
            assert(views(names@) =~= seq!["x"@, "y"@, "width"@, "height"@]);
            match read_record(v, &names) {
                None => None,
                Some(p) => {
                    assert(opt_views(p@).len() == 4);
                    let x = get_single(p[0]);
                    let y = get_single(p[1]);
                    let width = get_single(p[2]);
                    let height = get_single(p[3]);
                    match (x, y, width, height) {
                        (Some(x), Some(y), Some(width), Some(height)) => Some(
                            NormalizedRect { x, y, width, height },
                        ),
                        _ => None,
                    }
                },
            }
        },
    }
}

fn read_zone(v: &Json) -> (r: Option<RestrictedZoneParameters>)
    ensures
        match r {
            Some(z) => zone_of(v@) == Some(z@),
            None => zone_of(v@) is None,
        },
{
    let names: Vec<&'static str> = vec![
        "policy_id",
        "policy_version",
        "device_id",
        "region",
        "enter_motion_score",
        "exit_motion_score",
        "enter_after_frames",
        "exit_after_frames",
    ];
    assert(views(names@) =~= zone_names());
    match read_record(v, &names) {
        None => None,
        Some(p) => {
            assert(opt_views(p@).len() == 8);
            let policy_id = get_text(p[0]);
            let policy_version = get_unsigned(p[1]);
            let device_id = get_text(p[2]);
            let region = read_rect(p[3]);
            let enter_motion_score = get_single(p[4]);
            let exit_motion_score = get_single(p[5]);
            let enter_after_frames = get_short(p[6]);
            let exit_after_frames = get_short(p[7]);
            match (
                policy_id,
                policy_version,
                device_id,
                region,
                enter_motion_score,
                exit_motion_score,
                enter_after_frames,
                exit_after_frames,
            ) {
                (
                    Some(policy_id),
                    Some(policy_version),
                    Some(device_id),
                    Some(region),
                    Some(enter_motion_score),
                    Some(exit_motion_score),
                    Some(enter_after_frames),
                    Some(exit_after_frames),
                ) => Some(
                    RestrictedZoneParameters {
                        policy_id,
                        policy_version,
                        device_id,
                        region,
                        enter_motion_score,
                        exit_motion_score,
                        enter_after_frames,
                        exit_after_frames,
                    },
                ),
                _ => None,
            }
        },
    }
}

/// The parameters that a JSON value describes.
pub fn read_parameters(v: Option<&Json>) -> (r: PolicyParameters)
    ensures
        r@ == parameters_of(opt_part(v)),
{
    match v {
        None => PolicyParameters::none(),
        Some(v) => {
            let names: Vec<&'static str> = vec!["restricted_zone"];
            assert(views(names@) =~= seq!["restricted_zone"@]);
            match read_record(v, &names) {
                None => PolicyParameters::none(),
                Some(p) => {
                    assert(opt_views(p@).len() == 1);
                    match p[0] {
                        Some(z) => PolicyParameters { restricted_zone: read_zone(z) },
                        None => PolicyParameters::none(),
                    }
                },
            }
        },
    }
}

/// The status that a JSON value names.
pub fn read_status(v: Option<&Json>) -> (r: Option<PolicyStatus>)
    ensures
        r == status_of(opt_part(v)),
{
    match v {
        None => None,
        Some(v) => {
            match v.as_str() {
                Some(name) => {
                    return PolicyStatus::from_name(name);
                },
                None => {},
            }
            match v.fields() {
                Some(fields) => {
                    if fields.len() != 1 {
                        return None;
                    }
                    match &fields[0].1 {
                        Json::Null => PolicyStatus::from_name(fields[0].0.as_str()),
                        other => {
                            assert(!(other@ is Null));
                            None
                        },
                    }
                },
                None => None,
            }
        },
    }
}

// ------------------------------------------------------------- revisions
/// One revision of the policy of a run.
#[derive(Debug)]
pub struct PolicyRevision {
    pub revision: u64,
    pub parent_revision: Option<u64>,
    pub status: PolicyStatus,
    pub prompt: Option<String>,
    pub output_schema: Option<Json>,
    pub parameters: PolicyParameters,
    pub created_at_ms: u64,
    pub updated_at_ms: u64,
    pub effective_generation: Option<u64>,
    pub effective_on_current_generation: bool,
    pub deferred_fields: Vec<String>,
}

/// What a revision is.
pub ghost struct RevisionView {
    pub revision: u64,
    pub parent_revision: Option<u64>,
    pub status: PolicyStatus,
    pub prompt: Option<Seq<char>>,
    pub output_schema: Option<JsonView>,
    pub zone: Option<ZoneView>,
    pub created_at_ms: u64,
    pub updated_at_ms: u64,
    pub effective_generation: Option<u64>,
    pub effective_on_current_generation: bool,
    pub deferred_fields: Seq<Seq<char>>,
}

impl View for PolicyRevision {
    type V = RevisionView;

    open spec fn view(&self) -> RevisionView {
        RevisionView {
            revision: self.revision,
            parent_revision: self.parent_revision,
            status: self.status,
            prompt: opt_text(self.prompt),
            output_schema: opt_json(self.output_schema),
            zone: self.parameters@,
            created_at_ms: self.created_at_ms,
            updated_at_ms: self.updated_at_ms,
            effective_generation: self.effective_generation,
            effective_on_current_generation: self.effective_on_current_generation,
            deferred_fields: texts(self.deferred_fields@),
        }
    }
}

/// The order of the list: by the number of the revision.
pub struct ByRevision;

impl Ranked<ByRevision> for PolicyRevision {
    open spec fn ranks_before(a: RevisionView, b: RevisionView) -> bool {
        a.revision <= b.revision
    }

    fn may_precede(&self, other: &Self) -> (r: bool) {
        self.revision <= other.revision
    }

    proof fn rank_is_total(a: RevisionView, b: RevisionView) {
    }

    proof fn rank_is_transitive(a: RevisionView, b: RevisionView, c: RevisionView) {
    }
}

/// Where the first revision of some number stands.
pub open spec fn place_of(policies: Seq<RevisionView>, revision: u64) -> Option<int>
    decreases policies.len(),
{
    if policies.len() == 0 {
        None
    } else {
        match place_of(policies.drop_last(), revision) {
            Some(i) => Some(i),
            None => if policies.last().revision == revision {
                Some(policies.len() - 1)
            } else {
                None
            },
        }
    }
}

/// A revision as it is made.
pub open spec fn new_revision(event: EventView, payload: JsonView) -> RevisionView {
    RevisionView {
        revision: event.seq,
        parent_revision: payload.unsigned_at("parent_revision"@),
        status: PolicyStatus::Draft,
        prompt: payload.text_at("prompt"@),
        output_schema: match payload.get("output_schema"@) {
            Some(JsonView::Null) => None,
            other => other,
        },
        zone: parameters_of(payload.get("parameters"@)),
        created_at_ms: event.pts_ms,
        updated_at_ms: event.pts_ms,
        effective_generation: None,
        effective_on_current_generation: false,
        deferred_fields: Seq::empty(),
    }
}

/// A revision that left a status.
pub open spec fn left(p: RevisionView, status: PolicyStatus, at_ms: u64) -> RevisionView {
    RevisionView { status, updated_at_ms: at_ms, effective_on_current_generation: false, ..p }
}

/// The revisions once each active one but those of a number retired.
pub open spec fn after_retiring(
    policies: Seq<RevisionView>,
    except: u64,
    at_ms: u64,
) -> Seq<RevisionView> {
    policies.map_values(
        |p: RevisionView|
            if p.revision != except && p.status == PolicyStatus::Active {
                left(p, PolicyStatus::Retired, at_ms)
            } else {
                p
            },
    )
}

/// What an acknowledgement says of how a revision was applied.
pub open spec fn application_of(payload: JsonView) -> JsonView {
    match payload.get("application"@) {
        Some(v) => v,
        None => JsonView::Null,
    }
}

/// A revision that was acknowledged in a status.
pub open spec fn acknowledged(
    p: RevisionView,
    status: PolicyStatus,
    payload: JsonView,
    at_ms: u64,
) -> RevisionView {
    let application = application_of(payload);
    RevisionView {
        status,
        updated_at_ms: at_ms,
        effective_generation: application.unsigned_at("generation"@),
        effective_on_current_generation: application.flag_at("effective_on_current_generation"@)
            == Some(true),
        deferred_fields: match application.items_at("deferred_fields"@) {
            Some(items) => texts_among(items),
            None => Seq::empty(),
        },
        ..p
    }
}

/// The revisions once the first of some number was acknowledged.
pub open spec fn after_acknowledging(
    policies: Seq<RevisionView>,
    revision: u64,
    status: PolicyStatus,
    payload: JsonView,
    at_ms: u64,
) -> Seq<RevisionView> {
    match place_of(policies, revision) {
        Some(i) => policies.update(i, acknowledged(policies[i], status, payload, at_ms)),
        None => policies,
    }
}

/// The revisions once the first of some number was rolled back.
pub open spec fn after_leaving(
    policies: Seq<RevisionView>,
    revision: Option<u64>,
    at_ms: u64,
) -> Seq<RevisionView> {
    match revision {
        None => policies,
        Some(n) => match place_of(policies, n) {
            Some(i) => policies.update(i, left(policies[i], PolicyStatus::RolledBack, at_ms)),
            None => policies,
        },
    }
}

/// The revisions after one more event.
pub open spec fn after_event(
    policies: Seq<RevisionView>,
    event: EventView,
    payload: JsonView,
) -> Seq<RevisionView> {
    if event.kind == POLICY_CREATED@ {
        policies.push(new_revision(event, payload))
    } else if event.kind == POLICY_DEPLOY_ACKNOWLEDGED@ {
        match (payload.unsigned_at("revision"@), status_of(payload.get("status"@))) {
            (Some(revision), Some(status)) => {
                let rest = if status == PolicyStatus::Active {
                    after_retiring(policies, revision, event.pts_ms)
                } else {
                    policies
                };
                after_acknowledging(rest, revision, status, payload, event.pts_ms)
            },
            _ => policies,
        }
    } else if event.kind == POLICY_ROLLBACK_ACKNOWLEDGED@ {
        match payload.unsigned_at("revision"@) {
            Some(revision) => {
                let rest = after_leaving(
                    policies,
                    payload.unsigned_at("from_revision"@),
                    event.pts_ms,
                );
                after_acknowledging(
                    after_retiring(rest, revision, event.pts_ms),
                    revision,
                    PolicyStatus::Active,
                    payload,
                    event.pts_ms,
                )
            },
            None => policies,
        }
    } else {
        policies
    }
}

/// The revisions after some events, in the order in which they were made.
pub open spec fn after_events(events: Seq<EventView>, payloads: Seq<JsonView>) -> Seq<RevisionView>
    decreases events.len(),
{
    if events.len() == 0 {
        Seq::empty()
    } else {
        after_event(
            after_events(events.drop_last(), payloads),
            events.last(),
            payloads[events.len() - 1],
        )
    }
}

/// The revisions that some events tell of, by their numbers.
pub open spec fn rebuilt(events: Seq<EventView>, payloads: Seq<JsonView>) -> Seq<RevisionView> {
    sorted::<PolicyRevision, ByRevision>(after_events(events, payloads))
}

/// Where the first revision of some number stands.
pub fn find_revision(policies: &Vec<PolicyRevision>, revision: u64) -> (r: Option<usize>)
    ensures
        match r {
            Some(i) => i < policies@.len() && place_of(views(policies@), revision) == Some(i as int),
            None => place_of(views(policies@), revision) is None,
        },
{
    let ghost all = views(policies@);
    let mut i: usize = 0;
    assert(all.take(0) =~= Seq::empty());
    while i < policies.len()
        invariant
            all == views(policies@),
            i <= policies@.len(),
            place_of(all.take(i as int), revision) is None,
        decreases policies@.len() - i,
    {
        assert(all.take(i + 1).drop_last() =~= all.take(i as int));
        assert(all.take(i + 1).last() == policies@[i as int]@);
        if policies[i].revision == revision {
            proof {
                lemma_place_stays(all, revision, i + 1);
            }
            return Some(i);
        }
        i += 1;
    }
    assert(all.take(i as int) =~= all);
    None
}

/// The first revision of a number stays the first one, whatever is behind it.
proof fn lemma_place_stays(policies: Seq<RevisionView>, revision: u64, n: int)
    requires
        0 <= n <= policies.len(),
        place_of(policies.take(n), revision) is Some,
    ensures
        place_of(policies, revision) == place_of(policies.take(n), revision),
    decreases policies.len() - n,
{
    if n < policies.len() {
        assert(policies.take(n + 1).drop_last() =~= policies.take(n));
        lemma_place_stays(policies, revision, n + 1);
    } else {
        assert(policies.take(n) =~= policies);
    }
}

/// The first revision of a number is of that number, and none before it is.
pub(crate) proof fn lemma_place(policies: Seq<RevisionView>, revision: u64)
    ensures
        match place_of(policies, revision) {
            Some(i) => 0 <= i < policies.len() && policies[i].revision == revision && (forall|
                j: int,
            |
                0 <= j < i ==> (#[trigger] policies[j]).revision != revision),
            None => forall|j: int|
                0 <= j < policies.len() ==> (#[trigger] policies[j]).revision != revision,
        },
    decreases policies.len(),
{
    if policies.len() > 0 {
        let rest = policies.drop_last();
        lemma_place(rest, revision);
        match place_of(rest, revision) {
            Some(i) => {
                assert(policies[i] == rest[i]);
                assert forall|j: int| 0 <= j < i implies (#[trigger] policies[j]).revision
                    != revision by {
                    assert(rest[j] == policies[j]);
                }
            },
            None => {
                assert forall|j: int| 0 <= j < rest.len() implies (#[trigger] policies[j]).revision
                    != revision by {
                    assert(rest[j] == policies[j]);
                }
            },
        }
    }
}

impl PolicyRevision {
    fn leave(&mut self, status: PolicyStatus, at_ms: u64)
        ensures
            final(self)@ == left(old(self)@, status, at_ms),
    {
        self.status = status;
        self.updated_at_ms = at_ms;
        self.effective_on_current_generation = false;
    }
}

/// Retires each active revision but those of a number.
pub fn retire_active_policy(policies: &mut Vec<PolicyRevision>, except: u64, timestamp_ms: u64)
    ensures
        views(final(policies)@) == after_retiring(views(old(policies)@), except, timestamp_ms),
{
    let ghost before = views(policies@);
    let ghost want = after_retiring(before, except, timestamp_ms);
    let mut i: usize = 0;
    while i < policies.len()
        invariant
            want == after_retiring(before, except, timestamp_ms),
            policies@.len() == before.len(),
            i <= policies@.len(),
            forall|j: int| 0 <= j < i ==> (#[trigger] policies@[j])@ == want[j],
            forall|j: int| i <= j < policies@.len() ==> (#[trigger] policies@[j])@ == before[j],
        decreases policies@.len() - i,
    {
        if policies[i].revision != except && policies[i].status == PolicyStatus::Active {
            policies[i].leave(PolicyStatus::Retired, timestamp_ms);
        }
        i += 1;
    }
    assert(views(policies@) =~= want);
}

/// Notes that a revision was acknowledged in a status.
pub fn apply_acknowledgement(
    policy: &mut PolicyRevision,
    status: PolicyStatus,
    payload: &Json,
    timestamp_ms: u64,
)
    ensures
        final(policy)@ == acknowledged(old(policy)@, status, payload@, timestamp_ms),
{
    policy.status = status;
    policy.updated_at_ms = timestamp_ms;
    match payload.get("application") {
        Some(application) => {
            policy.effective_generation = application.unsigned_at("generation");
            policy.effective_on_current_generation = match application.flag_at(
                "effective_on_current_generation",
            ) {
                Some(b) => b,
                None => false,
            };
            policy.deferred_fields = match application.items_at("deferred_fields") {
                Some(items) => texts_in(items),
                None => Vec::new(),
            };
        },
        None => {
            policy.effective_generation = None;
            policy.effective_on_current_generation = false;
            policy.deferred_fields = Vec::new();
        },
    }
    proof {
        let want = acknowledged(old(policy)@, status, payload@, timestamp_ms);
        assert(policy@.deferred_fields =~= want.deferred_fields);
    }
}

fn make_revision(event: &TimelineEvent, payload: &Json) -> (r: PolicyRevision)
    ensures
        r@ == new_revision(event@, payload@),
{
    let output_schema = match payload.get("output_schema") {
        Some(Json::Null) => None,
        Some(v) => Some(v.copy()),
        None => None,
    };
    let prompt = match payload.text_at("prompt") {
        Some(s) => Some(owned(s)),
        None => None,
    };
    let r = PolicyRevision {
        revision: event.seq,
        parent_revision: payload.unsigned_at("parent_revision"),
        status: PolicyStatus::Draft,
        prompt,
        output_schema,
        parameters: read_parameters(payload.get("parameters")),
        created_at_ms: event.pts_ms,
        updated_at_ms: event.pts_ms,
        effective_generation: None,
        effective_on_current_generation: false,
        deferred_fields: Vec::new(),
    };
    assert(r@.deferred_fields =~= Seq::empty());
    r
}

fn acknowledge(
    policies: &mut Vec<PolicyRevision>,
    revision: u64,
    status: PolicyStatus,
    payload: &Json,
    at_ms: u64,
)
    ensures
        views(final(policies)@) == after_acknowledging(
            views(old(policies)@),
            revision,
            status,
            payload@,
            at_ms,
        ),
{
    let ghost before = views(policies@);
    match find_revision(policies, revision) {
        Some(i) => {
            apply_acknowledgement(&mut policies[i], status, payload, at_ms);
            assert(views(policies@) =~= before.update(
                i as int,
                acknowledged(before[i as int], status, payload@, at_ms),
            ));
        },
        None => {},
    }
}

/// Notes one more event.
pub fn note_event(policies: &mut Vec<PolicyRevision>, event: &TimelineEvent, payload: &Json)
    ensures
        views(final(policies)@) == after_event(views(old(policies)@), event@, payload@),
{
    let ghost before = views(policies@);
    if event.is(POLICY_CREATED) {
        policies.push(make_revision(event, payload));
        assert(views(policies@) =~= before.push(new_revision(event@, payload@)));
    } else if event.is(POLICY_DEPLOY_ACKNOWLEDGED) {
        match payload.unsigned_at("revision") {
            Some(revision) => match read_status(payload.get("status")) {
                Some(status) => {
                    if status == PolicyStatus::Active {
                        retire_active_policy(policies, revision, event.pts_ms);
                    }
                    acknowledge(policies, revision, status, payload, event.pts_ms);
                },
                None => {},
            },
            None => {},
        }
    } else if event.is(POLICY_ROLLBACK_ACKNOWLEDGED) {
        match payload.unsigned_at("revision") {
            Some(revision) => {
                match payload.unsigned_at("from_revision") {
                    Some(from_revision) => match find_revision(policies, from_revision) {
                        Some(i) => {
                            policies[i].leave(PolicyStatus::RolledBack, event.pts_ms);
                            assert(views(policies@) =~= before.update(
                                i as int,
                                left(before[i as int], PolicyStatus::RolledBack, event.pts_ms),
                            ));
                        },
                        None => {},
                    },
                    None => {},
                }
                retire_active_policy(policies, revision, event.pts_ms);
                acknowledge(policies, revision, PolicyStatus::Active, payload, event.pts_ms);
            },
            None => {},
        }
    }
}

/// The revisions that some events tell of, by their numbers, from what the
/// payloads of the events are.
pub fn rebuild_policies(events: &Vec<TimelineEvent>, payloads: &Vec<Json>) -> (r: Vec<PolicyRevision>)
    requires
        payloads@.len() == events@.len(),
    ensures
        views(r@) == rebuilt(event_views(events@), json_views(payloads@)),
{
    let ghost all = event_views(events@);
    let ghost read = json_views(payloads@);
    let mut policies: Vec<PolicyRevision> = Vec::new();
    let mut i: usize = 0;
    assert(all.take(0) =~= Seq::empty());
    assert(views(policies@) =~= Seq::empty());
    while i < events.len()
        invariant
            all == event_views(events@),
            read == json_views(payloads@),
            payloads@.len() == events@.len(),
            i <= events@.len(),
            views(policies@) == after_events(all.take(i as int), read),
        decreases events@.len() - i,
    {
        assert(all.take(i + 1).drop_last() =~= all.take(i as int));
        assert(all.take(i + 1).last() == events@[i as int]@);
        assert(read[i as int] == payloads@[i as int]@);
        note_event(&mut policies, &events[i], &payloads[i]);
        i += 1;
    }
    assert(all.take(i as int) =~= all);
    stable_sort::<PolicyRevision, ByRevision>(&mut policies);
    policies
}

/// The revisions that some events tell of, by their numbers.
pub fn reconstruct_policies(events: &Vec<TimelineEvent>) -> (r: Vec<PolicyRevision>)
    ensures
        views(r@) == rebuilt(event_views(events@), payloads_of(event_views(events@))),
{
    rebuild_policies(events, &read_payloads(events))
}

// ------------------------------------------------------------------ laws
/// How many revisions are active.
pub open spec fn active_count(policies: Seq<RevisionView>) -> nat
    decreases policies.len(),
{
    if policies.len() == 0 {
        0
    } else {
        active_count(policies.drop_last()) + if policies.last().status == PolicyStatus::Active {
            1nat
        } else {
            0
        }
    }
}

/// Only the first revision of a number is ever active, and only one is.
spec fn one_leads(policies: Seq<RevisionView>) -> bool {
    &&& forall|i: int|
        0 <= i < policies.len() && (#[trigger] policies[i]).status == PolicyStatus::Active
            ==> place_of(policies, policies[i].revision) == Some(i)
    &&& forall|i: int, j: int|
        #![trigger policies[i], policies[j]]
        0 <= i < policies.len() && 0 <= j < policies.len() && policies[i].status
            == PolicyStatus::Active && policies[j].status == PolicyStatus::Active ==> i == j
}

/// Where revisions stand depends on their numbers alone.
pub(crate) proof fn lemma_same_places(a: Seq<RevisionView>, b: Seq<RevisionView>, revision: u64)
    requires
        a.len() == b.len(),
        forall|i: int| 0 <= i < a.len() ==> (#[trigger] a[i]).revision == b[i].revision,
    ensures
        place_of(a, revision) == place_of(b, revision),
    decreases a.len(),
{
    if a.len() > 0 {
        assert forall|i: int| 0 <= i < a.drop_last().len() implies (#[trigger] a.drop_last()[i]).revision
            == b.drop_last()[i].revision by {
            assert(a[i].revision == b[i].revision);
        }
        lemma_same_places(a.drop_last(), b.drop_last(), revision);
        assert(a[a.len() - 1].revision == b[b.len() - 1].revision);
    }
}

/// Revisions that kept their numbers, of which none became active, still have
/// one that leads.
proof fn lemma_fewer_lead(a: Seq<RevisionView>, b: Seq<RevisionView>)
    requires
        one_leads(a),
        a.len() == b.len(),
        forall|i: int|
            0 <= i < a.len() ==> (#[trigger] b[i]).revision == a[i].revision && (b[i].status
                == PolicyStatus::Active ==> a[i].status == PolicyStatus::Active),
    ensures
        one_leads(b),
{
    assert forall|i: int|
        0 <= i < b.len() && (#[trigger] b[i]).status == PolicyStatus::Active implies place_of(
        b,
        b[i].revision,
    ) == Some(i) by {
        assert(a[i].status == PolicyStatus::Active);
        lemma_same_places(b, a, b[i].revision);
    }
    assert forall|i: int, j: int|
        #![trigger b[i], b[j]]
        0 <= i < b.len() && 0 <= j < b.len() && b[i].status == PolicyStatus::Active && b[j].status
            == PolicyStatus::Active implies i == j by {
        assert(a[i].status == PolicyStatus::Active && a[j].status == PolicyStatus::Active);
    }
}

/// Acknowledging a revision as active, once the others retired, leaves one that
/// leads.
proof fn lemma_acknowledging_leads(
    a: Seq<RevisionView>,
    revision: u64,
    payload: JsonView,
    at_ms: u64,
)
    requires
        one_leads(a),
    ensures
        one_leads(
            after_acknowledging(
                after_retiring(a, revision, at_ms),
                revision,
                PolicyStatus::Active,
                payload,
                at_ms,
            ),
        ),
{
    let rest = after_retiring(a, revision, at_ms);
    lemma_fewer_lead(a, rest);
    lemma_place(rest, revision);
    match place_of(rest, revision) {
        Some(k) => {
            let b = rest.update(k, acknowledged(rest[k], PolicyStatus::Active, payload, at_ms));
            assert forall|i: int|
                0 <= i < b.len() && (#[trigger] b[i]).status == PolicyStatus::Active implies i
                == k by {
                if i != k {
                    assert(b[i] == rest[i]);
                    assert(rest[i].status == PolicyStatus::Active);
                    assert(a[i].status == PolicyStatus::Active);
                    assert(rest[i].revision == revision);
                    assert(place_of(rest, rest[i].revision) == Some(i));
                }
            }
            lemma_same_places(b, rest, revision);
            assert(b[k].revision == revision);
        },
        None => {},
    }
}

proof fn lemma_one_leads(events: Seq<EventView>, payloads: Seq<JsonView>)
    ensures
        one_leads(after_events(events, payloads)),
    decreases events.len(),
{
    if events.len() > 0 {
        lemma_one_leads(events.drop_last(), payloads);
        let a = after_events(events.drop_last(), payloads);
        let event = events.last();
        let payload = payloads[events.len() - 1];
        if event.kind == POLICY_CREATED@ {
            let b = a.push(new_revision(event, payload));
            assert forall|i: int|
                0 <= i < b.len() && (#[trigger] b[i]).status == PolicyStatus::Active implies place_of(
                b,
                b[i].revision,
            ) == Some(i) by {
                assert(b[i] == a[i]);
                assert(b.drop_last() =~= a);
            }
            assert forall|i: int, j: int|
                #![trigger b[i], b[j]]
                0 <= i < b.len() && 0 <= j < b.len() && b[i].status == PolicyStatus::Active
                    && b[j].status == PolicyStatus::Active implies i == j by {
                assert(b[i] == a[i] && b[j] == a[j]);
            }
        } else if event.kind == POLICY_DEPLOY_ACKNOWLEDGED@ {
            match (payload.unsigned_at("revision"@), status_of(payload.get("status"@))) {
                (Some(revision), Some(status)) => {
                    if status == PolicyStatus::Active {
                        lemma_acknowledging_leads(a, revision, payload, event.pts_ms);
                    } else {
                        lemma_place(a, revision);
                        let b = after_acknowledging(a, revision, status, payload, event.pts_ms);
                        lemma_fewer_lead(a, b);
                    }
                },
                _ => {},
            }
        } else if event.kind == POLICY_ROLLBACK_ACKNOWLEDGED@ {
            match payload.unsigned_at("revision"@) {
                Some(revision) => {
                    let from = payload.unsigned_at("from_revision"@);
                    if from is Some {
                        lemma_place(a, from->0);
                    }
                    let b = after_leaving(a, from, event.pts_ms);
                    lemma_fewer_lead(a, b);
                    lemma_acknowledging_leads(b, revision, payload, event.pts_ms);
                },
                None => {},
            }
        }
    }
}

proof fn lemma_count_of_leaders(policies: Seq<RevisionView>)
    requires
        forall|i: int, j: int|
            #![trigger policies[i], policies[j]]
            0 <= i < policies.len() && 0 <= j < policies.len() && policies[i].status
                == PolicyStatus::Active && policies[j].status == PolicyStatus::Active ==> i == j,
    ensures
        active_count(policies) <= 1,
        (forall|i: int|
            0 <= i < policies.len() ==> (#[trigger] policies[i]).status != PolicyStatus::Active)
            ==> active_count(policies) == 0,
    decreases policies.len(),
{
    if policies.len() > 0 {
        let rest = policies.drop_last();
        assert forall|i: int, j: int|
            #![trigger rest[i], rest[j]]
            0 <= i < rest.len() && 0 <= j < rest.len() && rest[i].status == PolicyStatus::Active
                && rest[j].status == PolicyStatus::Active implies i == j by {
            assert(rest[i] == policies[i] && rest[j] == policies[j]);
        }
        lemma_count_of_leaders(rest);
        let last = policies[policies.len() - 1];
        if last.status == PolicyStatus::Active {
            assert forall|i: int| 0 <= i < rest.len() implies (#[trigger] rest[i]).status
                != PolicyStatus::Active by {
                assert(rest[i] == policies[i]);
            }
        }
        if forall|i: int|
            0 <= i < policies.len() ==> (#[trigger] policies[i]).status != PolicyStatus::Active {
            assert forall|i: int| 0 <= i < rest.len() implies (#[trigger] rest[i]).status
                != PolicyStatus::Active by {
                assert(rest[i] == policies[i]);
            }
        }
    }
}

proof fn lemma_inserted_count(s: Seq<RevisionView>, x: RevisionView)
    ensures
        active_count(inserted::<PolicyRevision, ByRevision>(s, x)) == active_count(s) + if x.status
            == PolicyStatus::Active {
            1nat
        } else {
            0
        },
    decreases s.len(),
{
    let r = inserted::<PolicyRevision, ByRevision>(s, x);
    if s.len() == 0 || PolicyRevision::ranks_before(s.last(), x) {
        assert(r.drop_last() =~= s);
    } else {
        lemma_inserted_count(s.drop_last(), x);
        assert(r.drop_last() =~= inserted::<PolicyRevision, ByRevision>(s.drop_last(), x));
    }
}

proof fn lemma_sorted_count(s: Seq<RevisionView>)
    ensures
        active_count(sorted::<PolicyRevision, ByRevision>(s)) == active_count(s),
    decreases s.len(),
{
    if s.len() > 0 {
        lemma_sorted_count(s.drop_last());
        lemma_inserted_count(sorted::<PolicyRevision, ByRevision>(s.drop_last()), s.last());
    }
}

/// Whatever the events of a run say, at most one revision is active.
pub proof fn at_most_one_revision_is_active(events: Seq<EventView>, payloads: Seq<JsonView>)
    ensures
        active_count(rebuilt(events, payloads)) <= 1,
{
    lemma_one_leads(events, payloads);
    lemma_count_of_leaders(after_events(events, payloads));
    lemma_sorted_count(after_events(events, payloads));
}

/// A revision goes up one stage at a time: from draft to shadow, from there to
/// canary, and from there to active. Nothing else is a promotion.
pub proof fn promotions_go_one_stage_up(from: PolicyStatus, to: PolicyStatus)
    ensures
        may_move(from, to) ==> from != to && !may_move(to, from),
        may_move(PolicyStatus::Draft, to) <==> to == PolicyStatus::Shadow,
        may_move(PolicyStatus::Shadow, to) <==> to == PolicyStatus::Canary,
        may_move(PolicyStatus::Canary, to) <==> to == PolicyStatus::Active,
        !may_move(PolicyStatus::Active, to),
        !may_move(PolicyStatus::Retired, to),
        !may_move(PolicyStatus::RolledBack, to),
{
}

/// The revisions of a run come by their numbers, and none is lost or added.
pub proof fn revisions_come_by_their_numbers(events: Seq<EventView>, payloads: Seq<JsonView>)
    ensures
        ({
            let r = rebuilt(events, payloads);
            &&& r.to_multiset() == after_events(events, payloads).to_multiset()
            &&& forall|i: int, j: int|
                0 <= i < j < r.len() ==> (#[trigger] r[i]).revision <= (#[trigger] r[j]).revision
        }),
{
    sorting_orders_and_permutes::<PolicyRevision, ByRevision>(after_events(events, payloads));
    let r = rebuilt(events, payloads);
    assert forall|i: int, j: int| 0 <= i < j < r.len() implies (#[trigger] r[i]).revision <= (
    #[trigger] r[j]).revision by {
        assert(<PolicyRevision as Ranked<ByRevision>>::ranks_before(r[i], r[j]));
    }
}

/// An event that makes a revision adds a draft with the number of the event and
/// what its payload says, and leaves the others as they are.
pub proof fn made_revisions_are_drafts(
    policies: Seq<RevisionView>,
    event: EventView,
    payload: JsonView,
)
    requires
        event.kind == "policy_revision_created"@,
    ensures
        ({
            let after = after_event(policies, event, payload);
            &&& after.len() == policies.len() + 1
            &&& after.drop_last() == policies
            &&& after.last().revision == event.seq
            &&& after.last().status == PolicyStatus::Draft
            &&& after.last().parent_revision == payload.unsigned_at("parent_revision"@)
            &&& after.last().prompt == payload.text_at("prompt"@)
            &&& after.last().created_at_ms == event.pts_ms
            &&& after.last().updated_at_ms == event.pts_ms
            &&& after.last().effective_generation is None
            &&& !after.last().effective_on_current_generation
        }),
{
    let after = after_event(policies, event, payload);
    assert(after.drop_last() =~= policies);
}

/// When a revision becomes active, every other that was active is retired, at
/// the time of the event; nothing else changes, and no revision is lost.
pub proof fn activation_retires_the_others(
    policies: Seq<RevisionView>,
    event: EventView,
    payload: JsonView,
    revision: u64,
    j: int,
)
    requires
        event.kind == "policy_deployment_acknowledged"@,
        payload.unsigned_at("revision"@) == Some(revision),
        payload.text_at("status"@) == Some("active"@),
        0 <= j < policies.len(),
        policies[j].revision != revision,
    ensures
        ({
            let after = after_event(policies, event, payload);
            &&& after.len() == policies.len()
            &&& after[j].revision == policies[j].revision
            &&& after[j].prompt == policies[j].prompt && after[j].zone == policies[j].zone
            &&& after[j].created_at_ms == policies[j].created_at_ms
            &&& policies[j].status == PolicyStatus::Active ==> after[j].status
                == PolicyStatus::Retired && after[j].updated_at_ms == event.pts_ms
                && !after[j].effective_on_current_generation
            &&& policies[j].status != PolicyStatus::Active ==> after[j] == policies[j]
        }),
{
    lemma_kinds();
    reveal_strlit("active");
    reveal_strlit("draft");
    reveal_strlit("shadow");
    reveal_strlit("canary");
    assert("active"@.len() == 6 && "draft"@.len() == 5 && "shadow"@.len() == 6 && "canary"@.len()
        == 6);
    assert("active"@[0] == 'a' && "shadow"@[0] == 's' && "canary"@[0] == 'c');
    let rest = after_retiring(policies, revision, event.pts_ms);
    lemma_place(rest, revision);
}

/// When a run goes back to an older revision, the one that it leaves is rolled
/// back, any other that was active is retired, and no revision is lost.
pub proof fn rollbacks_leave_the_newer_revision(
    policies: Seq<RevisionView>,
    event: EventView,
    payload: JsonView,
    revision: u64,
    from: u64,
    j: int,
)
    requires
        event.kind == "policy_rollback_acknowledged"@,
        payload.unsigned_at("revision"@) == Some(revision),
        payload.unsigned_at("from_revision"@) == Some(from),
        revision != from,
        0 <= j < policies.len(),
        forall|k: int| 0 <= k < j ==> (#[trigger] policies[k]).revision != policies[j].revision,
    ensures
        ({
            let after = after_event(policies, event, payload);
            &&& after.len() == policies.len()
            &&& after[j].revision == policies[j].revision
            &&& policies[j].revision == revision ==> after[j].status == PolicyStatus::Active
                && after[j].updated_at_ms == event.pts_ms
            &&& policies[j].revision == from ==> after[j].status == PolicyStatus::RolledBack
                && after[j].updated_at_ms == event.pts_ms
            &&& policies[j].revision != revision && policies[j].revision != from
                && policies[j].status == PolicyStatus::Active ==> after[j].status
                == PolicyStatus::Retired
            &&& policies[j].revision != revision && policies[j].revision != from
                && policies[j].status != PolicyStatus::Active ==> after[j] == policies[j]
        }),
{
    lemma_kinds();
    lemma_place(policies, from);
    let rest = after_leaving(policies, Some(from), event.pts_ms);
    assert forall|k: int| 0 <= k < policies.len() implies (#[trigger] rest[k]).revision
        == policies[k].revision by {}
    let others = after_retiring(rest, revision, event.pts_ms);
    assert forall|k: int| 0 <= k < policies.len() implies (#[trigger] others[k]).revision
        == policies[k].revision by {
        assert(rest[k].revision == policies[k].revision);
    }
    lemma_place(others, revision);
    assert(others[j].revision == policies[j].revision);
    assert(rest[j].revision == policies[j].revision);
    if policies[j].revision == from {
        assert(place_of(policies, from) == Some(j)) by {
            let p = place_of(policies, from)->0;
            if p < j {
                assert(policies[p].revision != policies[j].revision);
            }
        }
    }
    if policies[j].revision == revision {
        let p = place_of(others, revision)->0;
        if p < j {
            assert(others[p].revision == policies[p].revision);
        }
        assert(p == j);
    }
}

proof fn lemma_kinds()
    ensures
        POLICY_CREATED@ == "policy_revision_created"@,
        POLICY_DEPLOY_ACKNOWLEDGED@ == "policy_deployment_acknowledged"@,
        POLICY_ROLLBACK_ACKNOWLEDGED@ == "policy_rollback_acknowledged"@,
        POLICY_CREATED@.len() == 23,
        POLICY_DEPLOY_ACKNOWLEDGED@.len() == 30,
        POLICY_ROLLBACK_ACKNOWLEDGED@.len() == 28,
{
    reveal_strlit("policy_revision_created");
    reveal_strlit("policy_deployment_acknowledged");
    reveal_strlit("policy_rollback_acknowledged");
}

/// A rectangle is read from an object with its four numbers, each under its own
/// name, and with no other field; or from a list of them in that order.
pub proof fn rectangles_have_four_sides(
    x: JsonView,
    y: JsonView,
    width: JsonView,
    height: JsonView,
)
    requires
        x.as_single() is Some,
        y.as_single() is Some,
        width.as_single() is Some,
        height.as_single() is Some,
    ensures
        rect_of(
            JsonView::Object(
                seq![("x"@, x), ("y"@, y), ("width"@, width), ("height"@, height)],
            ),
        ) == Some(
            NormalizedRect {
                x: x.as_single()->0,
                y: y.as_single()->0,
                width: width.as_single()->0,
                height: height.as_single()->0,
            },
        ),
        rect_of(JsonView::Array(seq![x, y, width, height])) == Some(
            NormalizedRect {
                x: x.as_single()->0,
                y: y.as_single()->0,
                width: width.as_single()->0,
                height: height.as_single()->0,
            },
        ),
        rect_of(JsonView::Array(seq![x, y, width])) is None,
{
    reveal_strlit("x");
    reveal_strlit("y");
    reveal_strlit("width");
    reveal_strlit("height");
    assert("x"@.len() == 1);
    assert("y"@.len() == 1);
    assert("width"@.len() == 5);
    assert("height"@.len() == 6);
    assert("x"@[0] == 'x' && "y"@[0] == 'y');
    let names = seq!["x"@, "y"@, "width"@, "height"@];
    let fields = seq![("x"@, x), ("y"@, y), ("width"@, width), ("height"@, height)];
    crate::json::field_is_found(fields, 0);
    crate::json::field_is_found(fields, 1);
    crate::json::field_is_found(fields, 2);
    crate::json::field_is_found(fields, 3);
    assert(names[0] == "x"@ && names[1] == "y"@ && names[2] == "width"@ && names[3] == "height"@);
    assert forall|i: int| 0 <= i < fields.len() implies names.contains((#[trigger] fields[i]).0) by {
        assert(names[i] == fields[i].0);
    }
}

/// A record is read from an object exactly if it has no field but those it may
/// have, and from a list exactly if that has as many items; its parts are then
/// those of its names, in order.
pub proof fn records_have_their_parts(v: JsonView, names: Seq<Seq<char>>, i: int)
    requires
        0 <= i < names.len(),
    ensures
        v matches JsonView::Object(fields) ==> (record_parts(v, names) is Some <==> forall|k: int|
            0 <= k < fields.len() ==> names.contains((#[trigger] fields[k]).0)),
        v matches JsonView::Array(items) ==> (record_parts(v, names) is Some <==> items.len()
            == names.len()),
        v !is Object && v !is Array ==> record_parts(v, names) is None,
        v is Object && record_parts(v, names) is Some ==> record_parts(v, names)->0[i] == v.get(
            names[i],
        ),
        v is Array && record_parts(v, names) is Some ==> record_parts(v, names)->0[i] == Some(
            v->Array_0[i],
        ),
{
}

/// A zone is read with each of its eight parts under its own name.
pub proof fn zones_have_their_parts(v: JsonView)
    requires
        v is Object,
    ensures
        zone_of(v) matches Some(z) ==> {
            &&& v.text_at("policy_id"@) == Some(z.policy_id)
            &&& v.unsigned_at("policy_version"@) == Some(z.policy_version)
            &&& v.text_at("device_id"@) == Some(z.device_id)
            &&& v.get("region"@) is Some && rect_of(v.get("region"@)->0) == Some(z.region)
            &&& v.get("enter_motion_score"@) is Some && v.get("enter_motion_score"@)->0.as_single()
                == Some(z.enter_motion_score)
            &&& v.get("exit_motion_score"@) is Some && v.get("exit_motion_score"@)->0.as_single()
                == Some(z.exit_motion_score)
            &&& v.unsigned_at("enter_after_frames"@) == Some(z.enter_after_frames as u64)
            &&& v.unsigned_at("exit_after_frames"@) == Some(z.exit_after_frames as u64)
        },
{
    let names = zone_names();
    assert(names[0] == "policy_id"@ && names[1] == "policy_version"@ && names[2] == "device_id"@
        && names[3] == "region"@ && names[4] == "enter_motion_score"@ && names[5]
        == "exit_motion_score"@ && names[6] == "enter_after_frames"@ && names[7]
        == "exit_after_frames"@);
}

/// What was acknowledged is told with the generation that it works in and with
/// what is put off.
pub proof fn acknowledgements_are_kept(
    p: RevisionView,
    status: PolicyStatus,
    payload: JsonView,
    application: JsonView,
    at_ms: u64,
)
    requires
        payload.get("application"@) == Some(application),
    ensures
        ({
            let after = acknowledged(p, status, payload, at_ms);
            &&& after.status == status
            &&& after.updated_at_ms == at_ms
            &&& after.effective_generation == application.unsigned_at("generation"@)
            &&& after.effective_on_current_generation <==> application.flag_at(
                "effective_on_current_generation"@,
            ) == Some(true)
            &&& application.items_at("deferred_fields"@) is None ==> after.deferred_fields.len() == 0
            &&& after.revision == p.revision
        }),
{
}

} // verus!
