//! The LDAP messages and their mathematical content.
use vstd::prelude::*;

verus! {

/// A whole LDAP message.
#[derive(Debug, Clone, PartialEq, Eq)]
pub struct LdapMessage {
    pub message_id: i32,
    pub op: ProtocolOp,
    pub controls: Vec<Control>,
}

/// The operation a message carries.
#[derive(Debug, Clone, PartialEq, Eq)]
pub enum ProtocolOp {
    BindRequest(BindRequest),
    BindResponse(BindResponse),
    UnbindRequest,
    SearchRequest(SearchRequest),
    SearchResultEntry(SearchResultEntry),
    SearchResultDone(LdapResult),
    SearchResultReference(Vec<String>),
    ModifyRequest(ModifyRequest),
    ModifyResponse(LdapResult),
    AddRequest(AddRequest),
    AddResponse(LdapResult),
    DelRequest(String),
    DelResponse(LdapResult),
    ModifyDnRequest(ModifyDnRequest),
    ModifyDnResponse(LdapResult),
    CompareRequest(CompareRequest),
    CompareResponse(LdapResult),
    AbandonRequest(i32),
    ExtendedRequest(ExtendedRequest),
    ExtendedResponse(ExtendedResponse),
}

#[derive(Debug, Clone, PartialEq, Eq)]
pub struct Control {
    pub oid: String,
    pub critical: bool,
    pub value: Option<Vec<u8>>,
}

#[derive(Debug, Clone, PartialEq, Eq)]
pub struct BindRequest {
    pub version: u8,
    pub name: String,
    pub auth: BindAuth,
}

#[derive(Debug, Clone, PartialEq, Eq)]
pub enum BindAuth {
    Simple(Vec<u8>),
    Sasl { mechanism: String, credentials: Option<Vec<u8>> },
}

#[derive(Debug, Clone, PartialEq, Eq)]
pub struct BindResponse {
    pub result: LdapResult,
    pub server_sasl_creds: Option<Vec<u8>>,
}

#[derive(Debug, Clone, PartialEq, Eq)]
pub struct SearchRequest {
    pub base_dn: String,
    pub scope: SearchScope,
    pub deref: DerefAliases,
    pub size_limit: u32,
    pub time_limit: u32,
    pub types_only: bool,
    pub filter: Filter,
    pub attributes: Vec<String>,
}

#[derive(Debug, Clone, Copy, PartialEq, Eq)]
pub enum SearchScope {
    Base,
    One,
    Subtree,
}

#[derive(Debug, Clone, Copy, PartialEq, Eq)]
pub enum DerefAliases {
    Never,
    InSearching,
    FindingBase,
    Always,
}

#[derive(Debug, Clone, PartialEq, Eq)]
pub struct SearchResultEntry {
    pub dn: String,
    pub attributes: Vec<Attribute>,
}

#[derive(Debug, Clone, PartialEq, Eq)]
pub struct ModifyRequest {
    pub dn: String,
    pub changes: Vec<Change>,
}

#[derive(Debug, Clone, PartialEq, Eq)]
pub struct Change {
    pub operation: ModifyOp,
    pub modification: Attribute,
}

#[derive(Debug, Clone, Copy, PartialEq, Eq)]
pub enum ModifyOp {
    Add,
    Delete,
    Replace,
}

#[derive(Debug, Clone, PartialEq, Eq)]
pub struct AddRequest {
    pub dn: String,
    pub attributes: Vec<Attribute>,
}

#[derive(Debug, Clone, PartialEq, Eq)]
pub struct ModifyDnRequest {
    pub dn: String,
    pub new_rdn: String,
    pub delete_old_rdn: bool,
    pub new_superior: Option<String>,
}

#[derive(Debug, Clone, PartialEq, Eq)]
pub struct CompareRequest {
    pub dn: String,
    pub ava: AttributeValueAssertion,
}

#[derive(Debug, Clone, PartialEq, Eq)]
pub struct ExtendedRequest {
    pub name: String,
    pub value: Option<Vec<u8>>,
}

#[derive(Debug, Clone, PartialEq, Eq)]
pub struct ExtendedResponse {
    pub result: LdapResult,
    pub name: Option<String>,
    pub value: Option<Vec<u8>>,
}

#[derive(Debug, PartialEq, Eq)]
pub struct AttributeValueAssertion {
    pub attribute: String,
    pub value: Vec<u8>,
}

#[derive(Debug, Clone, PartialEq, Eq)]
pub struct Attribute {
    pub name: String,
    pub values: Vec<Vec<u8>>,
}

/// A search filter.
#[derive(Debug, PartialEq, Eq)]
pub enum Filter {
    And(Vec<Filter>),
    Or(Vec<Filter>),
    Not(Box<Filter>),
    Equality(AttributeValueAssertion),
    Substrings { attribute: String, substrings: Vec<Substring> },
    GreaterOrEqual(AttributeValueAssertion),
    LessOrEqual(AttributeValueAssertion),
    Present(String),
    Approx(AttributeValueAssertion),
    Extensible(ExtensibleMatch),
}

#[derive(Debug, PartialEq, Eq)]
pub enum Substring {
    Initial(String),
    Any(String),
    Final(String),
}

#[derive(Debug, PartialEq, Eq)]
pub struct ExtensibleMatch {
    pub matching_rule: Option<String>,
    pub attribute: Option<String>,
    pub value: Vec<u8>,
    pub dn_attributes: bool,
}

#[derive(Debug, Clone, PartialEq, Eq)]
pub struct LdapResult {
    pub code: ResultCode,
    pub matched_dn: String,
    pub message: String,
    pub referrals: Vec<String>,
}

/// The result codes of LDAPv3; any other value is kept as it is.
#[derive(Debug, Clone, Copy, PartialEq, Eq)]
pub enum ResultCode {
    Success,
    OperationsError,
    ProtocolError,
    TimeLimitExceeded,
    SizeLimitExceeded,
    CompareFalse,
    CompareTrue,
    AuthMethodNotSupported,
    StrongAuthRequired,
    Referral,
    AdminLimitExceeded,
    UnavailableCriticalExtension,
    ConfidentialityRequired,
    SaslBindInProgress,
    NoSuchAttribute,
    UndefinedAttributeType,
    ConstraintViolation,
    AttributeOrValueExists,
    InvalidAttributeSyntax,
    NoSuchObject,
    AliasProblem,
    InvalidDNSyntax,
    AliasDereferencingProblem,
    InappropriateAuthentication,
    InvalidCredentials,
    InsufficientAccess,
    Busy,
    Unavailable,
    UnwillingToPerform,
    LoopDetect,
    NamingViolation,
    ObjectClassViolation,
    NotAllowedOnNonLeaf,
    NotAllowedOnRDN,
    EntryAlreadyExists,
    ObjectClassModsProhibited,
    Other(u32),
}

impl Clone for Filter {
    fn clone(&self) -> (r: Filter)
        ensures
            r@ == self@,
        decreases self,
    {
        match self {
            Filter::And(items) => Filter::And(clone_filters(items)),
            Filter::Or(items) => Filter::Or(clone_filters(items)),
            Filter::Not(inner) => {
                let f: &Filter = inner;
                Filter::Not(Box::new(f.clone()))
            },
            Filter::Equality(a) => Filter::Equality(a.clone()),
            Filter::Substrings { attribute, substrings } => Filter::Substrings {
                attribute: attribute.clone(),
                substrings: clone_substrings(substrings),
            },
            Filter::GreaterOrEqual(a) => Filter::GreaterOrEqual(a.clone()),
            Filter::LessOrEqual(a) => Filter::LessOrEqual(a.clone()),
            Filter::Present(s) => Filter::Present(s.clone()),
            Filter::Approx(a) => Filter::Approx(a.clone()),
            Filter::Extensible(e) => Filter::Extensible(e.clone()),
        }
    }
}

/// A copy of `b`.
pub fn copy_bytes(b: &Vec<u8>) -> (r: Vec<u8>)
    ensures
        r@ == b@,
{
    let mut out: Vec<u8> = Vec::new();
    crate::wire::push_bytes(&mut out, b.as_slice());
    out
}

pub fn copy_opt_string(o: &Option<String>) -> (r: Option<String>)
    ensures
        opt_string(r) == opt_string(*o),
{
    match o {
        Some(s) => Some(s.clone()),
        None => None,
    }
}

pub fn copy_opt_bytes(o: &Option<Vec<u8>>) -> (r: Option<Vec<u8>>)
    ensures
        opt_bytes(r) == opt_bytes(*o),
{
    match o {
        Some(s) => Some(copy_bytes(s)),
        None => None,
    }
}

impl Clone for Substring {
    fn clone(&self) -> (r: Substring)
        ensures
            r@ == self@,
    {
        match self {
            Substring::Initial(v) => Substring::Initial(v.clone()),
            Substring::Any(v) => Substring::Any(v.clone()),
            Substring::Final(v) => Substring::Final(v.clone()),
        }
    }
}

impl Clone for AttributeValueAssertion {
    fn clone(&self) -> (r: AttributeValueAssertion)
        ensures
            r@ == self@,
    {
        AttributeValueAssertion { attribute: self.attribute.clone(), value: copy_bytes(&self.value) }
    }
}

impl Clone for ExtensibleMatch {
    fn clone(&self) -> (r: ExtensibleMatch)
        ensures
            r@ == self@,
    {
        ExtensibleMatch {
            matching_rule: copy_opt_string(&self.matching_rule),
            attribute: copy_opt_string(&self.attribute),
            value: copy_bytes(&self.value),
            dn_attributes: self.dn_attributes,
        }
    }
}

fn clone_filters(items: &Vec<Filter>) -> (r: Vec<Filter>)
    ensures
        filters_model(r@) == filters_model(items@),
    decreases items,
{
    let mut out: Vec<Filter> = Vec::new();
    let mut i: usize = 0;
    while i < items.len()
        invariant
            i <= items.len(),
            filters_model(out@) == filters_model(items@.subrange(0, i as int)),
        decreases items.len() - i,
    {
        assert(decreases_to!(items => items@[i as int]));
        let f = items[i].clone();
        proof {
            assert(out@.push(f).subrange(0, out@.len() as int) =~= out@);
            assert(items@.subrange(0, i + 1).subrange(0, i as int) =~= items@.subrange(0, i as int));
        }
        out.push(f);
        i = i + 1;
    }
    assert(items@.subrange(0, i as int) =~= items@);
    out
}

fn clone_substrings(items: &Vec<Substring>) -> (r: Vec<Substring>)
    ensures
        substrings_model(r@) == substrings_model(items@),
{
    let mut out: Vec<Substring> = Vec::new();
    let mut i: usize = 0;
    while i < items.len()
        invariant
            i <= items.len(),
            out@.len() == i,
            substrings_model(out@) == substrings_model(items@.subrange(0, i as int)),
        decreases items.len() - i,
    {
        let s = items[i].clone();
        let ghost prev = out@;
        out.push(s);
        proof {
            assert(s@ == items@[i as int]@);
            lemma_substrings_push(prev, s);
            lemma_substrings_push(items@.subrange(0, i as int), items@[i as int]);
            assert(items@.subrange(0, i + 1) =~= items@.subrange(0, i as int).push(items@[i as int]));
        }
        i = i + 1;
        assert(substrings_model(out@) =~= substrings_model(items@.subrange(0, i as int)));
    }
    assert(items@.subrange(0, i as int) =~= items@);
    out
}

// ----- mathematical content -----

pub struct LdapResultModel {
    pub code: ResultCode,
    pub matched_dn: Seq<char>,
    pub message: Seq<char>,
    pub referrals: Seq<Seq<char>>,
}

pub enum BindAuthModel {
    Simple(Seq<u8>),
    Sasl { mechanism: Seq<char>, credentials: Option<Seq<u8>> },
}

pub struct BindRequestModel {
    pub version: u8,
    pub name: Seq<char>,
    pub auth: BindAuthModel,
}

pub struct BindResponseModel {
    pub result: LdapResultModel,
    pub server_sasl_creds: Option<Seq<u8>>,
}

pub struct AvaModel {
    pub attribute: Seq<char>,
    pub value: Seq<u8>,
}

pub struct AttributeModel {
    pub name: Seq<char>,
    pub values: Seq<Seq<u8>>,
}

pub enum SubstringModel {
    Initial(Seq<char>),
    Any(Seq<char>),
    Final(Seq<char>),
}

pub struct ExtensibleModel {
    pub matching_rule: Option<Seq<char>>,
    pub attribute: Option<Seq<char>>,
    pub value: Seq<u8>,
    pub dn_attributes: bool,
}

pub enum FilterModel {
    And(Seq<FilterModel>),
    Or(Seq<FilterModel>),
    Not(Box<FilterModel>),
    Equality(AvaModel),
    Substrings(Seq<char>, Seq<SubstringModel>),
    GreaterOrEqual(AvaModel),
    LessOrEqual(AvaModel),
    Present(Seq<char>),
    Approx(AvaModel),
    Extensible(ExtensibleModel),
}

pub struct SearchRequestModel {
    pub base_dn: Seq<char>,
    pub scope: SearchScope,
    pub deref: DerefAliases,
    pub size_limit: u32,
    pub time_limit: u32,
    pub types_only: bool,
    pub filter: FilterModel,
    pub attributes: Seq<Seq<char>>,
}

pub struct EntryModel {
    pub dn: Seq<char>,
    pub attributes: Seq<AttributeModel>,
}

pub struct ChangeModel {
    pub operation: ModifyOp,
    pub modification: AttributeModel,
}

pub struct ModifyRequestModel {
    pub dn: Seq<char>,
    pub changes: Seq<ChangeModel>,
}

pub struct AddRequestModel {
    pub dn: Seq<char>,
    pub attributes: Seq<AttributeModel>,
}

pub struct ModifyDnModel {
    pub dn: Seq<char>,
    pub new_rdn: Seq<char>,
    pub delete_old_rdn: bool,
    pub new_superior: Option<Seq<char>>,
}

pub struct CompareModel {
    pub dn: Seq<char>,
    pub ava: AvaModel,
}

pub struct ExtendedRequestModel {
    pub name: Seq<char>,
    pub value: Option<Seq<u8>>,
}

pub struct ExtendedResponseModel {
    pub result: LdapResultModel,
    pub name: Option<Seq<char>>,
    pub value: Option<Seq<u8>>,
}

pub struct ControlModel {
    pub oid: Seq<char>,
    pub critical: bool,
    pub value: Option<Seq<u8>>,
}

pub enum OpModel {
    BindRequest(BindRequestModel),
    BindResponse(BindResponseModel),
    UnbindRequest,
    SearchRequest(SearchRequestModel),
    SearchResultEntry(EntryModel),
    SearchResultDone(LdapResultModel),
    SearchResultReference(Seq<Seq<char>>),
    ModifyRequest(ModifyRequestModel),
    ModifyResponse(LdapResultModel),
    AddRequest(AddRequestModel),
    AddResponse(LdapResultModel),
    DelRequest(Seq<char>),
    DelResponse(LdapResultModel),
    ModifyDnRequest(ModifyDnModel),
    ModifyDnResponse(LdapResultModel),
    CompareRequest(CompareModel),
    CompareResponse(LdapResultModel),
    AbandonRequest(i32),
    ExtendedRequest(ExtendedRequestModel),
    ExtendedResponse(ExtendedResponseModel),
}

pub struct MessageModel {
    pub message_id: i32,
    pub op: OpModel,
    pub controls: Seq<ControlModel>,
}

/// The characters of each string.
pub open spec fn strings_model(s: Seq<String>) -> Seq<Seq<char>> {
    s.map_values(|x: String| x@)
}

/// The bytes of each value.
pub open spec fn values_model(s: Seq<Vec<u8>>) -> Seq<Seq<u8>> {
    s.map_values(|x: Vec<u8>| x@)
}

pub open spec fn opt_bytes(o: Option<Vec<u8>>) -> Option<Seq<u8>> {
    match o {
        Some(v) => Some(v@),
        None => None,
    }
}

pub open spec fn opt_string(o: Option<String>) -> Option<Seq<char>> {
    match o {
        Some(v) => Some(v@),
        None => None,
    }
}

impl View for LdapResult {
    type V = LdapResultModel;

    open spec fn view(&self) -> LdapResultModel {
        LdapResultModel {
            code: self.code,
            matched_dn: self.matched_dn@,
            message: self.message@,
            referrals: strings_model(self.referrals@),
        }
    }
}

impl View for BindAuth {
    type V = BindAuthModel;

    open spec fn view(&self) -> BindAuthModel {
        match self {
            BindAuth::Simple(s) => BindAuthModel::Simple(s@),
            BindAuth::Sasl { mechanism, credentials } => BindAuthModel::Sasl {
                mechanism: mechanism@,
                credentials: opt_bytes(*credentials),
            },
        }
    }
}

impl View for BindRequest {
    type V = BindRequestModel;

    open spec fn view(&self) -> BindRequestModel {
        BindRequestModel { version: self.version, name: self.name@, auth: self.auth@ }
    }
}

impl View for BindResponse {
    type V = BindResponseModel;

    open spec fn view(&self) -> BindResponseModel {
        BindResponseModel { result: self.result@, server_sasl_creds: opt_bytes(self.server_sasl_creds) }
    }
}

impl View for AttributeValueAssertion {
    type V = AvaModel;

    open spec fn view(&self) -> AvaModel {
        AvaModel { attribute: self.attribute@, value: self.value@ }
    }
}

impl View for Attribute {
    type V = AttributeModel;

    open spec fn view(&self) -> AttributeModel {
        AttributeModel { name: self.name@, values: values_model(self.values@) }
    }
}

pub open spec fn attributes_model(s: Seq<Attribute>) -> Seq<AttributeModel> {
    s.map_values(|a: Attribute| a@)
}

impl View for Substring {
    type V = SubstringModel;

    open spec fn view(&self) -> SubstringModel {
        match self {
            Substring::Initial(s) => SubstringModel::Initial(s@),
            Substring::Any(s) => SubstringModel::Any(s@),
            Substring::Final(s) => SubstringModel::Final(s@),
        }
    }
}

impl View for ExtensibleMatch {
    type V = ExtensibleModel;

    open spec fn view(&self) -> ExtensibleModel {
        ExtensibleModel {
            matching_rule: opt_string(self.matching_rule),
            attribute: opt_string(self.attribute),
            value: self.value@,
            dn_attributes: self.dn_attributes,
        }
    }
}

/// The content of each substring assertion.
pub open spec fn substrings_model(s: Seq<Substring>) -> Seq<SubstringModel> {
    s.map_values(|x: Substring| x@)
}

proof fn lemma_substrings_push(s: Seq<Substring>, x: Substring)
    ensures
        substrings_model(s.push(x)) == substrings_model(s).push(x@),
{
    assert(substrings_model(s.push(x)) =~= substrings_model(s).push(x@));
}

/// The content of a filter.
pub open spec fn filter_model(f: Filter) -> FilterModel
    decreases f,
{
    match f {
        Filter::And(v) => FilterModel::And(filters_model(v@)),
        Filter::Or(v) => FilterModel::Or(filters_model(v@)),
        Filter::Not(b) => FilterModel::Not(Box::new(filter_model(*b))),
        Filter::Equality(a) => FilterModel::Equality(a@),
        Filter::Substrings { attribute, substrings } => FilterModel::Substrings(
            attribute@,
            substrings_model(substrings@),
        ),
        Filter::GreaterOrEqual(a) => FilterModel::GreaterOrEqual(a@),
        Filter::LessOrEqual(a) => FilterModel::LessOrEqual(a@),
        Filter::Present(s) => FilterModel::Present(s@),
        Filter::Approx(a) => FilterModel::Approx(a@),
        Filter::Extensible(e) => FilterModel::Extensible(e@),
    }
}

/// The contents of a sequence of filters.
pub open spec fn filters_model(s: Seq<Filter>) -> Seq<FilterModel>
    decreases s,
{
    if s.len() == 0 {
        Seq::empty()
    } else {
        filters_model(s.subrange(0, s.len() - 1)).push(filter_model(s[s.len() - 1]))
    }
}

impl View for Filter {
    type V = FilterModel;

    open spec fn view(&self) -> FilterModel {
        filter_model(*self)
    }
}

impl View for SearchRequest {
    type V = SearchRequestModel;

    open spec fn view(&self) -> SearchRequestModel {
        SearchRequestModel {
            base_dn: self.base_dn@,
            scope: self.scope,
            deref: self.deref,
            size_limit: self.size_limit,
            time_limit: self.time_limit,
            types_only: self.types_only,
            filter: self.filter@,
            attributes: strings_model(self.attributes@),
        }
    }
}

impl View for SearchResultEntry {
    type V = EntryModel;

    open spec fn view(&self) -> EntryModel {
        EntryModel { dn: self.dn@, attributes: attributes_model(self.attributes@) }
    }
}

impl View for Change {
    type V = ChangeModel;

    open spec fn view(&self) -> ChangeModel {
        ChangeModel { operation: self.operation, modification: self.modification@ }
    }
}

impl View for ModifyRequest {
    type V = ModifyRequestModel;

    open spec fn view(&self) -> ModifyRequestModel {
        ModifyRequestModel { dn: self.dn@, changes: self.changes@.map_values(|c: Change| c@) }
    }
}

impl View for AddRequest {
    type V = AddRequestModel;

    open spec fn view(&self) -> AddRequestModel {
        AddRequestModel { dn: self.dn@, attributes: attributes_model(self.attributes@) }
    }
}

impl View for ModifyDnRequest {
    type V = ModifyDnModel;

    open spec fn view(&self) -> ModifyDnModel {
        ModifyDnModel {
            dn: self.dn@,
            new_rdn: self.new_rdn@,
            delete_old_rdn: self.delete_old_rdn,
            new_superior: opt_string(self.new_superior),
        }
    }
}

impl View for CompareRequest {
    type V = CompareModel;

    open spec fn view(&self) -> CompareModel {
        CompareModel { dn: self.dn@, ava: self.ava@ }
    }
}

impl View for ExtendedRequest {
    type V = ExtendedRequestModel;

    open spec fn view(&self) -> ExtendedRequestModel {
        ExtendedRequestModel { name: self.name@, value: opt_bytes(self.value) }
    }
}

impl View for ExtendedResponse {
    type V = ExtendedResponseModel;

    open spec fn view(&self) -> ExtendedResponseModel {
        ExtendedResponseModel { result: self.result@, name: opt_string(self.name), value: opt_bytes(self.value) }
    }
}

impl View for Control {
    type V = ControlModel;

    open spec fn view(&self) -> ControlModel {
        ControlModel { oid: self.oid@, critical: self.critical, value: opt_bytes(self.value) }
    }
}

impl View for ProtocolOp {
    type V = OpModel;

    open spec fn view(&self) -> OpModel {
        match self {
            ProtocolOp::BindRequest(r) => OpModel::BindRequest(r@),
            ProtocolOp::BindResponse(r) => OpModel::BindResponse(r@),
            ProtocolOp::UnbindRequest => OpModel::UnbindRequest,
            ProtocolOp::SearchRequest(r) => OpModel::SearchRequest(r@),
            ProtocolOp::SearchResultEntry(r) => OpModel::SearchResultEntry(r@),
            ProtocolOp::SearchResultDone(r) => OpModel::SearchResultDone(r@),
            ProtocolOp::SearchResultReference(r) => OpModel::SearchResultReference(strings_model(r@)),
            ProtocolOp::ModifyRequest(r) => OpModel::ModifyRequest(r@),
            ProtocolOp::ModifyResponse(r) => OpModel::ModifyResponse(r@),
            ProtocolOp::AddRequest(r) => OpModel::AddRequest(r@),
            ProtocolOp::AddResponse(r) => OpModel::AddResponse(r@),
            ProtocolOp::DelRequest(r) => OpModel::DelRequest(r@),
            ProtocolOp::DelResponse(r) => OpModel::DelResponse(r@),
            ProtocolOp::ModifyDnRequest(r) => OpModel::ModifyDnRequest(r@),
            ProtocolOp::ModifyDnResponse(r) => OpModel::ModifyDnResponse(r@),
            ProtocolOp::CompareRequest(r) => OpModel::CompareRequest(r@),
            ProtocolOp::CompareResponse(r) => OpModel::CompareResponse(r@),
            ProtocolOp::AbandonRequest(r) => OpModel::AbandonRequest(*r),
            ProtocolOp::ExtendedRequest(r) => OpModel::ExtendedRequest(r@),
            ProtocolOp::ExtendedResponse(r) => OpModel::ExtendedResponse(r@),
        }
    }
}

impl View for LdapMessage {
    type V = MessageModel;

    open spec fn view(&self) -> MessageModel {
        MessageModel {
            message_id: self.message_id,
            op: self.op@,
            controls: self.controls@.map_values(|c: Control| c@),
        }
    }
}

} // verus!
