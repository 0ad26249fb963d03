//! What the HTML pages show: the rows of the page lists, and the pages of
//! the application flow with the decisions that pick between them.
use vstd::prelude::*;
use crate::dto;
use crate::dto::MachineListItem;
use crate::application::{ApplicationResult, CreateApplicationRequest, MAX_APPLICANTS};
use crate::error::ServiceError;
use crate::geo::{IpSearcher, parse_ip, located_ip};
use crate::net::{ipv4_text_octets, ipv6_text_groups};

verus! {

/// A target in the page lists.
pub struct Target {
    pub id: i32,
    pub name: String,
    pub updated: i64,
}

/// A machine on the admin page, with its full address.
pub struct AdminMachine {
    pub id: i32,
    pub name: String,
    pub ip: String,
}

/// A target on the admin page: a missing field shows as empty.
pub struct AdminTarget {
    pub id: i32,
    pub name: String,
    pub domain: String,
    pub ipv4: String,
    pub ipv6: String,
}

/// A machine on a page.
pub struct Machine {
    pub id: i32,
    pub name: String,
    pub ip: String,
}

/// The text of an optional field, empty when it is missing.
pub open spec fn text_or_empty(s: Option<String>) -> Seq<char> {
    match s {
        Some(t) => t@,
        None => Seq::<char>::empty(),
    }
}

fn copy_text(s: &String) -> (res: String)
    ensures
        res@ == s@,
{
    let cs = crate::text::chars_of(s.as_str());
    crate::text::string_from_chars(&cs)
}

fn text_or_default(s: &Option<String>) -> (res: String)
    ensures
        res@ == text_or_empty(*s),
{
    match s {
        Some(t) => copy_text(t),
        None => String::new(),
    }
}

impl Target {
    /// The row of a target: never updated shows as 0.
    pub fn from_dto(t: &dto::Target) -> (res: Target)
        ensures
            res.id == t.id,
            res.name@ == t.name@,
            res.updated == (match t.updated {
                Some(u) => u,
                None => 0,
            }),
    {
        Target {
            id: t.id,
            name: copy_text(&t.name),
            updated: match t.updated {
                Some(u) => u,
                None => 0,
            },
        }
    }
}

impl AdminTarget {
    /// The admin row of a target.
    pub fn from_dto(t: &dto::Target) -> (res: AdminTarget)
        ensures
            res.id == t.id,
            res.name@ == t.name@,
            res.domain@ == text_or_empty(t.domain),
            res.ipv4@ == text_or_empty(t.ipv4),
            res.ipv6@ == text_or_empty(t.ipv6),
    {
        AdminTarget {
            id: t.id,
            name: copy_text(&t.name),
            domain: text_or_default(&t.domain),
            ipv4: text_or_default(&t.ipv4),
            ipv6: text_or_default(&t.ipv6),
        }
    }
}

impl AdminMachine {
    /// The admin row of a machine.
    pub fn from_dto(m: &dto::Machine) -> (res: AdminMachine)
        ensures
            res.id == m.id,
            res.name@ == m.name@,
            res.ip@ == m.ip@,
    {
        AdminMachine { id: m.id, name: copy_text(&m.name), ip: copy_text(&m.ip) }
    }
}

impl Machine {
    /// A machine as a page shows it.
    pub fn from_dto(m: &dto::Machine) -> (res: Machine)
        ensures
            res.id == m.id,
            res.name@ == m.name@,
            res.ip@ == m.ip@,
    {
        Machine { id: m.id, name: copy_text(&m.name), ip: copy_text(&m.ip) }
    }
}

/// The page that asks to confirm removing a machine or a target.
pub struct DeleteTemplate {
    pub site_name: String,
    pub item_type: String,
    pub name: String,
    pub ip: String,
    pub domain: String,
    pub ipv4: String,
    pub ipv6: String,
    pub machines: Vec<MachineListItem>,
    pub current_machine_id: i32,
    pub enable_apply: bool,
    pub is_admin: bool,
}

impl DeleteTemplate {
    /// The confirmation for removing a machine: its name and address.
    pub fn for_machine(
        site_name: String,
        name: String,
        ip: String,
        machines: Vec<MachineListItem>,
        current_machine_id: i32,
        enable_apply: bool,
    ) -> (res: DeleteTemplate)
        ensures
            res.site_name@ == site_name@,
            res.item_type@ == "机器"@,
            res.name@ == name@,
            res.ip@ == ip@,
            res.domain@.len() == 0 && res.ipv4@.len() == 0 && res.ipv6@.len() == 0,
            res.machines@ == machines@,
            res.current_machine_id == current_machine_id,
            res.enable_apply == enable_apply,
            res.is_admin,
    {
        DeleteTemplate {
            site_name,
            item_type: "机器".to_string(),
            name,
            ip,
            domain: String::new(),
            ipv4: String::new(),
            ipv6: String::new(),
            machines,
            current_machine_id,
            enable_apply,
            is_admin: true,
        }
    }

    /// The confirmation for removing a target: its name and addresses, a
    /// missing one shown empty.
    pub fn for_target(
        site_name: String,
        name: String,
        domain: Option<String>,
        ipv4: Option<String>,
        ipv6: Option<String>,
        machines: Vec<MachineListItem>,
        enable_apply: bool,
    ) -> (res: DeleteTemplate)
        ensures
            res.site_name@ == site_name@,
            res.item_type@ == "目标"@,
            res.name@ == name@,
            res.ip@.len() == 0,
            res.domain@ == text_or_empty(domain),
            res.ipv4@ == text_or_empty(ipv4),
            res.ipv6@ == text_or_empty(ipv6),
            res.machines@ == machines@,
            res.current_machine_id == 0,
            res.enable_apply == enable_apply,
            res.is_admin,
    {
        DeleteTemplate {
            site_name,
            item_type: "目标".to_string(),
            name,
            ip: String::new(),
            domain: text_or_default(&domain),
            ipv4: text_or_default(&ipv4),
            ipv6: text_or_default(&ipv6),
            machines,
            current_machine_id: 0,
            enable_apply,
            is_admin: true,
        }
    }
}

// ---------------------------------------------------------------- the application pages

/// The application form: whether the visitor may apply, and if not, why.
pub struct ApplyTemplate {
    pub site_name: String,
    pub eligible: bool,
    pub ip: String,
    pub province: String,
    pub isp: String,
    pub reason: String,
    pub current_count: i32,
    pub max_count: i32,
    pub machines: Vec<MachineListItem>,
    pub current_machine_id: i32,
    pub enable_apply: bool,
    pub is_admin: bool,
}

/// The page an accepted applicant sees.
pub struct ApplySuccessTemplate {
    pub site_name: String,
    pub machine_id: i32,
    pub name: String,
    pub key: String,
    pub command: String,
    pub machines: Vec<MachineListItem>,
    pub current_machine_id: i32,
    pub enable_apply: bool,
    pub is_admin: bool,
}

/// The page shown while applications are closed.
pub struct ApplyDisabledTemplate {
    pub site_name: String,
    pub machines: Vec<MachineListItem>,
    pub current_machine_id: i32,
    pub enable_apply: bool,
    pub is_admin: bool,
}

/// One of the application pages.
pub enum ApplyPage {
    Disabled(ApplyDisabledTemplate),
    Form(ApplyTemplate),
    Success(ApplySuccessTemplate),
}

/// What the application handlers know of the request: the site, the
/// visitor's address, whether applications are open, and the sidebar.
pub struct ApplyContext {
    pub site_name: String,
    pub ip: String,
    pub enable_apply: bool,
    pub machines: Vec<MachineListItem>,
}

/// What happened last in an application request.
pub enum ApplyEvent {
    /// The request came in.
    Opened,
    /// The eligibility check answered: province, carrier and the count of
    /// applicants, or why not.
    Eligibility(Result<(String, String, i32), ServiceError>),
    /// The application was filed, or failed.
    Submitted(Result<ApplicationResult, ServiceError>),
}

/// What the handler does next.
pub enum ApplyAction {
    /// Check the visitor's eligibility.
    CheckEligibility,
    /// File the application.
    Submit(CreateApplicationRequest),
    /// Answer with a page.
    Render(ApplyPage),
}

/// The province and carrier of a place, both empty when there is none.
pub open spec fn place_pair(place: Option<(Seq<char>, Seq<char>, Seq<char>)>) -> (
    Seq<char>,
    Seq<char>,
) {
    match place {
        Some((_, p, i)) => (p, i),
        None => (Seq::<char>::empty(), Seq::<char>::empty()),
    }
}

/// The form shown for a request: the fields it shares with the request,
/// whether the visitor may apply, where the address is, the count shown,
/// and the limit.
pub open spec fn form_shown(
    t: ApplyTemplate,
    site: Seq<char>,
    machines: Seq<MachineListItem>,
    enable: bool,
    ip: Seq<char>,
    eligible: bool,
    place: (Seq<char>, Seq<char>),
    count: i32,
) -> bool {
    &&& shares_context(
        t.site_name@,
        t.machines@,
        t.current_machine_id,
        t.enable_apply,
        t.is_admin,
        site,
        machines,
        enable,
    )
    &&& t.eligible == eligible
    &&& t.ip@ == ip
    &&& (t.province@, t.isp@) == place
    &&& t.current_count == count
    &&& t.max_count == MAX_APPLICANTS
}

/// The text of a service error as the page shows it.
pub open spec fn reason_shown(e: ServiceError, shown: Seq<char>) -> bool {
    match e {
        ServiceError::NotFound(m) => shown == "Resource not found: "@ + m@,
        ServiceError::Validation(m) => shown == "Validation failed: "@ + m@,
        ServiceError::Database(_) => shown.len() >= "Database error: "@.len() && shown.subrange(
            0,
            "Database error: "@.len() as int,
        ) == "Database error: "@,
        ServiceError::Conflict(m) => shown == "Conflict: "@ + m@,
        ServiceError::IpGeo(m) => shown == "IP geo service error: "@ + m@,
        ServiceError::Application(m) => shown == "Application error: "@ + m@,
        ServiceError::Unauthorized(m) => shown == "Unauthorized: "@ + m@,
    }
}

/// The fields every application page shares with the request.
pub open spec fn shares_context(
    site_name: Seq<char>,
    machines: Seq<MachineListItem>,
    current_machine_id: i32,
    enable_apply: bool,
    is_admin: bool,
    ctx_site: Seq<char>,
    ctx_machines: Seq<MachineListItem>,
    ctx_enable: bool,
) -> bool {
    &&& site_name == ctx_site
    &&& machines == ctx_machines
    &&& current_machine_id == 0
    &&& enable_apply == ctx_enable
    &&& !is_admin
}

/// The page shown while applications are closed.
fn disabled_page(ctx: ApplyContext) -> (res: ApplyPage)
    ensures
        res matches ApplyPage::Disabled(t) && shares_context(
            t.site_name@,
            t.machines@,
            t.current_machine_id,
            t.enable_apply,
            t.is_admin,
            ctx.site_name@,
            ctx.machines@,
            ctx.enable_apply,
        ),
{
    ApplyPage::Disabled(
        ApplyDisabledTemplate {
            site_name: ctx.site_name,
            machines: ctx.machines,
            current_machine_id: 0,
            enable_apply: ctx.enable_apply,
            is_admin: false,
        },
    )
}

/// The form for an eligible visitor.
fn eligible_page(ctx: ApplyContext, province: String, isp: String, count: i32) -> (res: ApplyPage)
    ensures
        res matches ApplyPage::Form(t) && shares_context(
            t.site_name@,
            t.machines@,
            t.current_machine_id,
            t.enable_apply,
            t.is_admin,
            ctx.site_name@,
            ctx.machines@,
            ctx.enable_apply,
        ) && t.eligible && t.ip@ == ctx.ip@ && t.province@ == province@ && t.isp@ == isp@
            && t.reason@.len() == 0 && t.current_count == count && t.max_count == MAX_APPLICANTS,
{
    ApplyPage::Form(
        ApplyTemplate {
            site_name: ctx.site_name,
            eligible: true,
            ip: ctx.ip,
            province,
            isp,
            reason: String::new(),
            current_count: count,
            max_count: MAX_APPLICANTS,
            machines: ctx.machines,
            current_machine_id: 0,
            enable_apply: ctx.enable_apply,
            is_admin: false,
        },
    )
}

/// The form for a refused visitor, with the reason.
fn refused_page(ctx: ApplyContext, province: String, isp: String, e: ServiceError) -> (res:
    ApplyPage)
    ensures
        res matches ApplyPage::Form(t) && shares_context(
            t.site_name@,
            t.machines@,
            t.current_machine_id,
            t.enable_apply,
            t.is_admin,
            ctx.site_name@,
            ctx.machines@,
            ctx.enable_apply,
        ) && !t.eligible && t.ip@ == ctx.ip@ && t.province@ == province@ && t.isp@ == isp@
            && reason_shown(e, t.reason@) && t.current_count == 0 && t.max_count
            == MAX_APPLICANTS,
{
    let reason = e.message();
    ApplyPage::Form(
        ApplyTemplate {
            site_name: ctx.site_name,
            eligible: false,
            ip: ctx.ip,
            province,
            isp,
            reason,
            current_count: 0,
            max_count: MAX_APPLICANTS,
            machines: ctx.machines,
            current_machine_id: 0,
            enable_apply: ctx.enable_apply,
            is_admin: false,
        },
    )
}

/// The form for a refused visitor, with the province and carrier the
/// lookup of the address finds (both empty when it finds none).
fn refused_located_page(ctx: ApplyContext, searcher: &IpSearcher, e: ServiceError) -> (res:
    ApplyPage)
    ensures
        res matches ApplyPage::Form(t) && form_shown(
            t,
            ctx.site_name@,
            ctx.machines@,
            ctx.enable_apply,
            ctx.ip@,
            false,
            place_pair(located_ip(*searcher, ctx.ip@)),
            0,
        ) && reason_shown(e, t.reason@),
{
    let g = parse_ip(searcher, ctx.ip.as_str());
    let (province, isp) = match g {
        Some(info) => (info.province, info.isp),
        None => (String::new(), String::new()),
    };
    refused_page(ctx, province, isp, e)
}

/// The page an accepted applicant sees.
fn success_page(ctx: ApplyContext, result: ApplicationResult) -> (res: ApplyPage)
    ensures
        res matches ApplyPage::Success(t) && shares_context(
            t.site_name@,
            t.machines@,
            t.current_machine_id,
            t.enable_apply,
            t.is_admin,
            ctx.site_name@,
            ctx.machines@,
            ctx.enable_apply,
        ) && t.machine_id == result.id && t.name@ == result.name@ && t.key@ == result.key@
            && t.command@ == result.command@,
{
    ApplyPage::Success(
        ApplySuccessTemplate {
            site_name: ctx.site_name,
            machine_id: result.id,
            name: result.name,
            key: result.key,
            command: result.command,
            machines: ctx.machines,
            current_machine_id: 0,
            enable_apply: ctx.enable_apply,
            is_admin: false,
        },
    )
}

/// The next step of the application page (`GET /apply`): closed
/// applications show the closed page; otherwise the eligibility is checked,
/// and the form shows either the count of applicants or the reason for the
/// refusal, with where the address is when it can be located.
pub fn apply_page_step(ctx: ApplyContext, searcher: &IpSearcher, event: ApplyEvent) -> (res:
    ApplyAction)
    ensures
        !ctx.enable_apply ==> (res matches ApplyAction::Render(ApplyPage::Disabled(t))
            && shares_context(
            t.site_name@,
            t.machines@,
            t.current_machine_id,
            t.enable_apply,
            t.is_admin,
            ctx.site_name@,
            ctx.machines@,
            ctx.enable_apply,
        )),
        ctx.enable_apply ==> match event {
            ApplyEvent::Opened => res is CheckEligibility,
            ApplyEvent::Eligibility(Ok((p, i, c))) => res matches ApplyAction::Render(
                ApplyPage::Form(t),
            ) && form_shown(
                t,
                ctx.site_name@,
                ctx.machines@,
                ctx.enable_apply,
                ctx.ip@,
                true,
                (p@, i@),
                c,
            ) && t.reason@.len() == 0,
            ApplyEvent::Eligibility(Err(e)) => res matches ApplyAction::Render(ApplyPage::Form(t))
                && form_shown(
                t,
                ctx.site_name@,
                ctx.machines@,
                ctx.enable_apply,
                ctx.ip@,
                false,
                place_pair(located_ip(*searcher, ctx.ip@)),
                0,
            ) && reason_shown(e, t.reason@),
            ApplyEvent::Submitted(_) => res is CheckEligibility,
        },
{
    if !ctx.enable_apply {
        return ApplyAction::Render(disabled_page(ctx));
    }
    match event {
        ApplyEvent::Eligibility(Ok((p, i, c))) => ApplyAction::Render(eligible_page(ctx, p, i, c)),
        ApplyEvent::Eligibility(Err(e)) => ApplyAction::Render(
            refused_located_page(ctx, searcher, e),
        ),
        _ => ApplyAction::CheckEligibility,
    }
}

/// The next step of filing an application (`POST /apply`): closed
/// applications show the closed page; otherwise the eligibility is checked
/// again, a refusal shows the form with its reason, an eligible visitor's
/// application is filed under the province and carrier found, and the
/// outcome shows the success page or the form with the failure.
pub fn apply_submit_step(ctx: ApplyContext, searcher: &IpSearcher, event: ApplyEvent) -> (res:
    ApplyAction)
    ensures
        !ctx.enable_apply ==> (res matches ApplyAction::Render(ApplyPage::Disabled(t))
            && shares_context(
            t.site_name@,
            t.machines@,
            t.current_machine_id,
            t.enable_apply,
            t.is_admin,
            ctx.site_name@,
            ctx.machines@,
            ctx.enable_apply,
        )),
        ctx.enable_apply ==> match event {
            ApplyEvent::Opened => res is CheckEligibility,
            ApplyEvent::Eligibility(Ok((p, i, _))) => res matches ApplyAction::Submit(req)
                && req.ip@ == ctx.ip@ && req.province@ == p@ && req.isp@ == i@,
            ApplyEvent::Eligibility(Err(e)) => res matches ApplyAction::Render(ApplyPage::Form(t))
                && form_shown(
                t,
                ctx.site_name@,
                ctx.machines@,
                ctx.enable_apply,
                ctx.ip@,
                false,
                place_pair(located_ip(*searcher, ctx.ip@)),
                0,
            ) && reason_shown(e, t.reason@),
            ApplyEvent::Submitted(Ok(r)) => res matches ApplyAction::Render(ApplyPage::Success(t))
                && shares_context(
                t.site_name@,
                t.machines@,
                t.current_machine_id,
                t.enable_apply,
                t.is_admin,
                ctx.site_name@,
                ctx.machines@,
                ctx.enable_apply,
            ) && t.machine_id == r.id && t.name@ == r.name@ && t.key@ == r.key@ && t.command@
                == r.command@,
            ApplyEvent::Submitted(Err(e)) => res matches ApplyAction::Render(ApplyPage::Form(t))
                && form_shown(
                t,
                ctx.site_name@,
                ctx.machines@,
                ctx.enable_apply,
                ctx.ip@,
                false,
                (Seq::<char>::empty(), Seq::<char>::empty()),
                0,
            ) && reason_shown(e, t.reason@),
        },
{
    if !ctx.enable_apply {
        return ApplyAction::Render(disabled_page(ctx));
    }
    match event {
        ApplyEvent::Opened => ApplyAction::CheckEligibility,
        ApplyEvent::Eligibility(Ok((p, i, _))) => ApplyAction::Submit(
            CreateApplicationRequest { ip: ctx.ip, province: p, isp: i },
        ),
        ApplyEvent::Eligibility(Err(e)) => ApplyAction::Render(
            refused_located_page(ctx, searcher, e),
        ),
        ApplyEvent::Submitted(Ok(r)) => ApplyAction::Render(success_page(ctx, r)),
        ApplyEvent::Submitted(Err(e)) => ApplyAction::Render(
            refused_page(ctx, String::new(), String::new(), e),
        ),
    }
}

} // verus!
