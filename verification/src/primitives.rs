//! Data types shared by the pallets, and the length limits on their strings.
use crate::table::TableKey;
use vstd::prelude::*;

verus! {

/// Account ids.
pub type AccountId = u64;

/// Points in time (milliseconds).
pub type Moment = u64;

/// Member weights and vote counts.
pub type MemberCount = u32;

/// Balances of accounts.
pub type Balance = u64;

/// A decentralized identifier: 32 bytes.
#[derive(Clone, Copy, Debug, PartialEq, Eq, PartialOrd, Ord, Default)]
pub struct Did {
    pub id: [u8; 32],
}

impl TableKey for [u8; 32] {
    fn key_eq(&self, other: &Self) -> (r: bool) {
        let mut i: usize = 0;
        while i < 32
            invariant
                i <= 32,
                forall|j: int| 0 <= j < i ==> self[j] == other[j],
            decreases 32 - i,
        {
            if self[i] != other[i] {
                return false;
            }
            i += 1;
        }
        proof {
            assert(*self =~= *other);
        }
        true
    }

    fn copy_key(&self) -> (r: Self) {
        *self
    }
}

impl TableKey for Did {
    fn key_eq(&self, other: &Self) -> (r: bool) {
        self.id.key_eq(&other.id)
    }

    fn copy_key(&self) -> (r: Self) {
        Did { id: self.id }
    }
}

/// A typed fact: the value of a property or statement.
#[derive(Clone, Debug, PartialEq, Eq)]
pub enum Fact {
    /// true or false
    Bool(bool),
    /// char collection
    Text(Vec<u8>),
    /// A file attachment, kept off chain: (hash, filename)
    Attachment([u8; 32], Vec<u8>),
    /// A lat/lng pair each multiplied by 1_000_000
    Location(u32, u32),
    /// A Did
    Did(Did),
    /// A float stored as little-endian bytes
    Float([u8; 8]),
    U8(u8),
    U16(u16),
    U32(u32),
    U128(u128),
    /// (Year, Month, Day)
    Date(u16, u8, u8),
    /// (Year, Month, Day, Hour, Minute, Second, Time Zone Offset)
    Iso8601(u16, u8, u8, u8, u8, u8, Vec<u8>),
}

/// A named fact about a DID.
#[derive(Clone, Debug, PartialEq, Eq)]
pub struct DidProperty {
    pub name: Vec<u8>,
    pub fact: Fact,
}

/// A named fact about an asset.
#[derive(Clone, Debug, PartialEq, Eq)]
pub struct AssetProperty {
    pub name: Vec<u8>,
    pub fact: Fact,
}

/// A statement of a claim.
#[derive(Clone, Debug, PartialEq, Eq)]
pub struct Statement {
    /// Name of the property
    pub name: Vec<u8>,
    /// Fact in question
    pub fact: Fact,
    /// To be completed by the issuer
    pub for_issuer: bool,
}

/// An attestation of a claim by an issuer.
#[derive(Clone, Copy, Debug, PartialEq, Eq)]
pub struct Attestation {
    /// The issuer that attested the claim
    pub attested_by: AccountId,
    /// When the attestation was issued
    pub issued: Moment,
    /// The attestation is valid until
    pub valid_until: Moment,
}

/// A claim made against a DID.
#[derive(Clone, Debug, PartialEq, Eq)]
pub struct Claim {
    /// A claim description
    pub description: Vec<u8>,
    /// Statements contained in this claim
    pub statements: Vec<Statement>,
    /// The consumer that created the claim
    pub created_by: AccountId,
    /// Attestation by an issuer
    pub attestation: Option<Attestation>,
    /// Votes a group issuer needs to attest the claim
    pub threshold: MemberCount,
}

/// A consumer that may make claims against a DID until the expiration.
#[derive(Clone, Copy, Debug, PartialEq, Eq)]
pub struct ClaimConsumer {
    pub consumer: AccountId,
    pub expiration: Moment,
}

/// An issuer that may attest claims against a DID until the expiration.
#[derive(Clone, Copy, Debug, PartialEq, Eq)]
pub struct ClaimIssuer {
    pub issuer: AccountId,
    pub expiration: Moment,
}

/// The DID document: the subject of a DID.
#[derive(Clone, Copy, Debug, PartialEq, Eq, Default)]
pub struct DidDocument {
    pub subject: AccountId,
}

/// A registry of assets.
#[derive(Clone, Debug, PartialEq, Eq)]
pub struct Registry {
    pub name: Vec<u8>,
}

/// The life cycle state of an asset.
#[derive(Clone, Copy, Debug, PartialEq, Eq, Structural)]
pub enum AssetStatus {
    Draft,
    Active,
    InActive,
}

/// An asset in a registry.
#[derive(Clone, Debug, PartialEq, Eq)]
pub struct Asset {
    pub properties: Vec<AssetProperty>,
    pub name: Vec<u8>,
    pub asset_number: Option<Vec<u8>>,
    pub status: AssetStatus,
    pub serial_number: Option<Vec<u8>>,
    pub total_shares: u64,
    pub residual_value: Option<Balance>,
    pub purchase_value: Option<Balance>,
    pub acquired_date: Option<Moment>,
}

/// Shares of an asset that a lease allocates.
#[derive(Clone, Copy, Debug, PartialEq, Eq)]
pub struct AssetAllocation {
    pub registry_id: u32,
    pub asset_id: u32,
    pub allocated_shares: u64,
}

/// A lease of assets from a lessor to a lessee.
#[derive(Clone, Debug, PartialEq, Eq)]
pub struct LeaseAgreement {
    pub proposal_id: Option<u32>,
    pub contract_number: Vec<u8>,
    pub lessor: Did,
    pub lessee: Did,
    pub effective_ts: Moment,
    pub expiry_ts: Moment,
    pub allocations: Vec<AssetAllocation>,
}

/// The life cycle state of an audit.
#[derive(Clone, Copy, Debug, PartialEq, Eq, Structural)]
pub enum AuditStatus {
    Requested,
    Accepted,
    Rejected,
    InProgress,
    Completed,
}

/// An audit requested by a creator and carried out by an auditing organization.
#[derive(Clone, Copy, Debug, PartialEq, Eq)]
pub struct Audit {
    /// The proposal that created the audit.
    pub proposal_id: u32,
    /// The status of the audit.
    pub status: AuditStatus,
    /// The creator may delete the audit while it is requested.
    pub audit_creator: AccountId,
    /// The auditing organization accepts, rejects and completes the audit and assigns auditors.
    pub auditing_org: AccountId,
    /// The auditors create observations and evidence.
    pub auditors: Option<AccountId>,
}

/// The compliance found for a control point.
#[derive(Clone, Copy, Debug, PartialEq, Eq, Structural)]
pub enum Compliance {
    NotApplicable,
    Compliant,
    NonCompliant,
}

/// An observation on a control point of an audit.
#[derive(Clone, Copy, Debug, PartialEq, Eq)]
pub struct Observation {
    pub proposal_id: u32,
    pub compliance: Option<Compliance>,
    pub procedural_note_hash: Option<[u8; 32]>,
}

/// An observation as it was stored before it recorded its proposal.
#[derive(Clone, Copy, Debug, PartialEq, Eq)]
pub struct OldObservation {
    pub compliance: Option<Compliance>,
    pub procedural_note_hash: Option<[u8; 32]>,
}

/// An attestation as it was stored before it recorded when it was issued.
#[derive(Clone, Copy, Debug, PartialEq, Eq)]
pub struct OldAttestation {
    pub attested_by: AccountId,
    pub valid_until: Moment,
}

/// Evidence attached to an audit.
#[derive(Clone, Debug, PartialEq, Eq)]
pub struct Evidence {
    pub proposal_id: u32,
    pub name: Vec<u8>,
    pub content_type: Vec<u8>,
    pub url: Option<Vec<u8>>,
    pub hash: Vec<u8>,
}

/// A group of weighted members.
#[derive(Clone, Debug, PartialEq, Eq)]
pub struct Group {
    /// A name for the group.
    pub name: Vec<u8>,
    /// Total weight of all group members.
    pub total_vote_weight: MemberCount,
    /// Group threshold used for some proposals.
    pub threshold: MemberCount,
    /// The group's account. Pays for proposals.
    pub anonymous_account: AccountId,
    /// If this group is a sub-group, this is the parent group.
    pub parent: Option<u32>,
}

/// The votes on a proposal.
#[derive(Clone, Debug, PartialEq, Eq)]
pub struct Votes {
    /// The weight of approvals needed to pass the motion.
    pub threshold: MemberCount,
    /// The total vote weight of the group when the proposal was made.
    pub total_vote_weight: MemberCount,
    /// The voters that approved, with their weights.
    pub ayes: Vec<(AccountId, MemberCount)>,
    /// The voters that rejected, with their weights.
    pub nays: Vec<(AccountId, MemberCount)>,
    /// Whether the vote was vetoed, and how.
    pub veto: Option<bool>,
}

/// The state of a definition.
#[derive(Clone, Copy, Debug, PartialEq, Eq, Structural)]
pub enum DefinitionStatus {
    Creating,
    Active,
    Inactive,
}

/// A named definition.
#[derive(Clone, Debug, PartialEq, Eq)]
pub struct Definition {
    pub name: Vec<u8>,
    pub status: DefinitionStatus,
}

/// The state of a process.
#[derive(Clone, Copy, Debug, PartialEq, Eq, Structural)]
pub enum ProcessStatus {
    InProgress,
    Completed,
}

/// A named process.
#[derive(Clone, Debug, PartialEq, Eq)]
pub struct Process {
    pub name: Vec<u8>,
    pub status: ProcessStatus,
}

/// The state of a sequence.
#[derive(Clone, Copy, Debug, PartialEq, Eq, Structural)]
pub enum SequenceStatus {
    InProgress,
    Completed,
}

/// The state of a template.
#[derive(Clone, Copy, Debug, PartialEq, Eq, Structural)]
pub enum TemplateStatus {
    Creating,
    Active,
    InActive,
}

/// A named sequence.
#[derive(Clone, Debug, PartialEq, Eq)]
pub struct Sequence {
    pub name: Vec<u8>,
    pub status: SequenceStatus,
}

/// A named template.
#[derive(Clone, Debug, PartialEq, Eq)]
pub struct Template {
    pub name: Vec<u8>,
    pub status: TemplateStatus,
}

impl Default for SequenceStatus {
    /// A sequence starts in progress.
    fn default() -> (r: Self)
        ensures
            r == SequenceStatus::InProgress,
    {
        SequenceStatus::InProgress
    }
}

impl Default for TemplateStatus {
    /// A template starts being created.
    fn default() -> (r: Self)
        ensures
            r == TemplateStatus::Creating,
    {
        TemplateStatus::Creating
    }
}

impl Default for Sequence {
    /// An unnamed sequence in progress.
    fn default() -> (r: Self)
        ensures
            r.name@ == Seq::<u8>::empty(),
            r.status == SequenceStatus::InProgress,
    {
        Sequence { name: Vec::new(), status: SequenceStatus::InProgress }
    }
}

impl Default for Template {
    /// An unnamed template being created.
    fn default() -> (r: Self)
        ensures
            r.name@ == Seq::<u8>::empty(),
            r.status == TemplateStatus::Creating,
    {
        Template { name: Vec::new(), status: TemplateStatus::Creating }
    }
}

/// A named fact attested in a process step.
#[derive(Clone, Debug, PartialEq, Eq)]
pub struct Attribute {
    pub name: Vec<u8>,
    pub fact: Fact,
}

/// A step of a definition: who attests it and with how many votes.
#[derive(Clone, Debug, PartialEq, Eq)]
pub struct DefinitionStep {
    pub name: Vec<u8>,
    pub attestor: AccountId,
    pub required: bool,
    pub threshold: MemberCount,
}

/// A step of a process as it was attested.
#[derive(Clone, Debug, PartialEq, Eq)]
pub struct ProcessStep {
    pub proposal_id: Option<u32>,
    pub attested: Moment,
    pub attributes: Vec<Attribute>,
}

/// A group of an organization.
#[derive(Clone, Debug, PartialEq, Eq, Default)]
pub struct OrgGroup {
    pub parent: Option<u32>,
    pub name: Vec<u8>,
    pub members: Vec<AccountId>,
    pub required_votes: u8,
    /// If fund_source is None, the parent group pays for transactions.
    pub fund_source: Option<AccountId>,
}

/// A string fits a limit when its length is at most the limit.
pub open spec fn fits(s: Seq<u8>, limit: u32) -> bool {
    s.len() <= limit
}

/// Checks that a string fits a length limit (a bounded string is made from it).
pub fn check_limit(s: &Vec<u8>, limit: u32) -> (r: bool)
    ensures
        r == fits(s@, limit),
{
    s.len() as u64 <= limit as u64
}

/// Checks that an optional string fits a length limit.
pub fn check_limit_option(s: &Option<Vec<u8>>, limit: u32) -> (r: bool)
    ensures
        r == option_fits(*s, limit),
{
    match s {
        Some(v) => check_limit(v, limit),
        None => true,
    }
}

/// An optional string fits when it is absent or fits.
pub open spec fn option_fits(s: Option<Vec<u8>>, limit: u32) -> bool {
    match s {
        Some(v) => fits(v@, limit),
        None => true,
    }
}

/// The strings of a fact that are bounded fit the limit: the text of a text fact
/// and the file name of an attachment. The time zone of a date-time is not bounded.
pub open spec fn fact_fits(f: Fact, limit: u32) -> bool {
    match f {
        Fact::Text(s) => fits(s@, limit),
        Fact::Attachment(_, name) => fits(name@, limit),
        _ => true,
    }
}

/// Checks that the bounded strings of a fact fit a limit.
pub fn check_fact(f: &Fact, limit: u32) -> (r: bool)
    ensures
        r == fact_fits(*f, limit),
{
    match f {
        Fact::Text(s) => check_limit(s, limit),
        Fact::Attachment(_, name) => check_limit(name, limit),
        _ => true,
    }
}

/// The name and fact of a property fit their limits.
pub open spec fn property_fits(p: DidProperty, name_limit: u32, fact_limit: u32) -> bool {
    fits(p.name@, name_limit) && fact_fits(p.fact, fact_limit)
}

/// All properties fit their limits.
pub open spec fn properties_fit(ps: Seq<DidProperty>, name_limit: u32, fact_limit: u32) -> bool {
    forall|i: int| 0 <= i < ps.len() ==> property_fits(#[trigger] ps[i], name_limit, fact_limit)
}

/// Checks that every property fits its limits.
pub fn check_properties(ps: &Vec<DidProperty>, name_limit: u32, fact_limit: u32) -> (r: bool)
    ensures
        r == properties_fit(ps@, name_limit, fact_limit),
{
    let mut i: usize = 0;
    while i < ps.len()
        invariant
            i <= ps@.len(),
            properties_fit(ps@.take(i as int), name_limit, fact_limit),
        decreases ps@.len() - i,
    {
        if !(check_limit(&ps[i].name, name_limit) && check_fact(&ps[i].fact, fact_limit)) {
            assert(!property_fits(ps@[i as int], name_limit, fact_limit));
            return false;
        }
        assert(ps@.take(i as int + 1) =~= ps@.take(i as int).push(ps@[i as int]));
        i += 1;
    }
    assert(ps@.take(i as int) =~= ps@);
    true
}

/// The name and fact of a statement fit their limits.
pub open spec fn statement_fits(s: Statement, name_limit: u32, fact_limit: u32) -> bool {
    fits(s.name@, name_limit) && fact_fits(s.fact, fact_limit)
}

/// All statements fit their limits.
pub open spec fn statements_fit(ss: Seq<Statement>, name_limit: u32, fact_limit: u32) -> bool {
    forall|i: int| 0 <= i < ss.len() ==> statement_fits(#[trigger] ss[i], name_limit, fact_limit)
}

/// Checks that every statement fits its limits.
pub fn check_statements(ss: &Vec<Statement>, name_limit: u32, fact_limit: u32) -> (r: bool)
    ensures
        r == statements_fit(ss@, name_limit, fact_limit),
{
    let mut i: usize = 0;
    while i < ss.len()
        invariant
            i <= ss@.len(),
            statements_fit(ss@.take(i as int), name_limit, fact_limit),
        decreases ss@.len() - i,
    {
        if !(check_limit(&ss[i].name, name_limit) && check_fact(&ss[i].fact, fact_limit)) {
            assert(!statement_fits(ss@[i as int], name_limit, fact_limit));
            return false;
        }
        assert(ss@.take(i as int + 1) =~= ss@.take(i as int).push(ss@[i as int]));
        i += 1;
    }
    assert(ss@.take(i as int) =~= ss@);
    true
}

/// The name and fact of an asset property fit their limits.
pub open spec fn asset_property_fits(p: AssetProperty, name_limit: u32, fact_limit: u32) -> bool {
    fits(p.name@, name_limit) && fact_fits(p.fact, fact_limit)
}

/// The strings of an asset fit their limits.
pub open spec fn asset_fits(a: Asset, name_limit: u32, fact_limit: u32) -> bool {
    &&& forall|i: int|
        0 <= i < a.properties@.len() ==> asset_property_fits(
            #[trigger] a.properties@[i],
            name_limit,
            fact_limit,
        )
    &&& fits(a.name@, name_limit)
    &&& option_fits(a.asset_number, name_limit)
    &&& option_fits(a.serial_number, name_limit)
}

/// Checks that the strings of an asset fit their limits.
pub fn check_asset(a: &Asset, name_limit: u32, fact_limit: u32) -> (r: bool)
    ensures
        r == asset_fits(*a, name_limit, fact_limit),
{
    let ps = &a.properties;
    let mut i: usize = 0;
    while i < ps.len()
        invariant
            i <= ps@.len(),
            ps@ == a.properties@,
            forall|j: int|
                0 <= j < i ==> asset_property_fits(#[trigger] ps@[j], name_limit, fact_limit),
        decreases ps@.len() - i,
    {
        let p = &ps[i];
        if !(check_limit(&p.name, name_limit) && check_fact(&p.fact, fact_limit)) {
            assert(!asset_property_fits(a.properties@[i as int], name_limit, fact_limit));
            return false;
        }
        i += 1;
    }
    check_limit(&a.name, name_limit) && check_limit_option(&a.asset_number, name_limit)
        && check_limit_option(&a.serial_number, name_limit)
}

} // verus!
