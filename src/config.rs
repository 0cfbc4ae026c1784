use vstd::prelude::*;

use crate::text::{
    after_first, before_first, eq_lower, has_char, join_path, lower_eq, parse_unsigned, path_join,
    spec_parse_unsigned, split_at_commas, split_commas, split_once, trim, trimmed,
};

verus! {

/// Owner applied to a Unix domain socket: numeric user and group ids.
#[derive(Clone, Copy, Debug, PartialEq, Eq, Structural)]
pub struct Owner {
    pub uid: u32,
    pub gid: u32,
}

/// Why a configuration value was rejected.
#[derive(Clone, Copy, Debug, PartialEq, Eq, Structural)]
pub enum ConfigError {
    /// A forward entry holds a piece without `=`.
    MissingEquals,
    /// A socket mode that is not a number.
    InvalidMode,
    /// An owner not written `user:group`.
    InvalidOwner,
    /// No account of that name.
    UnknownUser,
    /// No group of that name.
    UnknownGroup,
    /// A backlog that is not a 32-bit unsigned number.
    InvalidBacklog,
    /// An idle timeout that is not a 64-bit unsigned number of seconds.
    InvalidIdleTimeout,
    /// A forward entry names a key that no field has.
    UnknownKey,
}

/// Relies on users::get_user_by_name: the uid of the account of that name in
/// the system's user database, when there is one. What the database holds
/// depends on the machine, so nothing is stated of the result.
#[verifier::external_body]
fn lookup_user_id(name: &str) -> (r: Option<u32>) {
    users::get_user_by_name(name).map(|u| u.uid())
}

/// Relies on users::get_group_by_name: the gid of the group of that name in
/// the system's group database, when there is one. What the database holds
/// depends on the machine, so nothing is stated of the result.
#[verifier::external_body]
fn lookup_group_id(name: &str) -> (r: Option<u32>) {
    users::get_group_by_name(name).map(|g| g.gid())
}

/// A decimal 32-bit id, as `u32::from_str` reads it.
pub open spec fn spec_numeric_id(s: Seq<char>) -> Option<u32> {
    match spec_parse_unsigned(s, 10, u32::MAX as u64) {
        Some(n) => Some(n as u32),
        None => None,
    }
}

/// Reads a user as a numeric uid, else looks the name up.
pub fn resolve_user(input: &str) -> (r: Result<u32, ConfigError>)
    ensures
        spec_numeric_id(input@) is Some ==> r == Ok::<u32, ConfigError>(spec_numeric_id(input@)->Some_0),
        spec_numeric_id(input@) is None ==> r is Ok || r == Err::<u32, ConfigError>(ConfigError::UnknownUser),
{
    match parse_unsigned(input, 10, u32::MAX as u64) {
        Some(n) => Ok(n as u32),
        None => match lookup_user_id(input) {
            Some(uid) => Ok(uid),
            None => Err(ConfigError::UnknownUser),
        },
    }
}

/// Reads a group as a numeric gid, else looks the name up.
pub fn resolve_group(input: &str) -> (r: Result<u32, ConfigError>)
    ensures
        spec_numeric_id(input@) is Some ==> r == Ok::<u32, ConfigError>(spec_numeric_id(input@)->Some_0),
        spec_numeric_id(input@) is None ==> r is Ok || r == Err::<u32, ConfigError>(ConfigError::UnknownGroup),
{
    match parse_unsigned(input, 10, u32::MAX as u64) {
        Some(n) => Ok(n as u32),
        None => match lookup_group_id(input) {
            Some(gid) => Ok(gid),
            None => Err(ConfigError::UnknownGroup),
        },
    }
}

/// What an owner written `user:group` gives when the result does not depend
/// on the user and group databases: an error without a colon, the ids when
/// both parts are numeric; nothing when a name must be looked up.
pub open spec fn owner_outcome(s: Seq<char>) -> Option<Result<Owner, ConfigError>> {
    if !has_char(s, ':') {
        Some(Err(ConfigError::InvalidOwner))
    } else {
        match (spec_numeric_id(before_first(s, ':')), spec_numeric_id(after_first(s, ':'))) {
            (Some(uid), Some(gid)) => Some(Ok(Owner { uid, gid })),
            _ => None,
        }
    }
}

impl Owner {
    /// Reads an owner written `user:group`, each part a numeric id or a name.
    pub fn parse(s: &str) -> (r: Result<Owner, ConfigError>)
        ensures
            owner_outcome(s@) is Some ==> r == owner_outcome(s@)->Some_0,
            owner_outcome(s@) is None ==> r is Ok || r == Err::<Owner, ConfigError>(
                ConfigError::UnknownUser,
            ) || r == Err::<Owner, ConfigError>(ConfigError::UnknownGroup),
    {
        match split_once(s, ':') {
            None => Err(ConfigError::InvalidOwner),
            Some((user, group)) => {
                let uid = match resolve_user(user) {
                    Ok(uid) => uid,
                    Err(e) => return Err(e),
                };
                let gid = match resolve_group(group) {
                    Ok(gid) => gid,
                    Err(e) => return Err(e),
                };
                Ok(Owner { uid, gid })
            },
        }
    }
}

/// A socket mode: octal after `0o` or after a leading `0`, else decimal.
pub open spec fn spec_parse_mode(v: Seq<char>) -> Option<u32> {
    let r = if v.len() >= 2 && v[0] == '0' && v[1] == 'o' {
        spec_parse_unsigned(v.subrange(2, v.len() as int), 8, u32::MAX as u64)
    } else if v.len() > 1 && v[0] == '0' {
        spec_parse_unsigned(v.drop_first(), 8, u32::MAX as u64)
    } else {
        spec_parse_unsigned(v, 10, u32::MAX as u64)
    };
    match r {
        Some(n) => Some(n as u32),
        None => None,
    }
}

/// Reads a socket mode such as `0o660`, `0660` or `432`.
pub fn parse_mode(value: &str) -> (r: Result<u32, ConfigError>)
    ensures
        match spec_parse_mode(value@) {
            Some(m) => r == Ok::<u32, ConfigError>(m),
            None => r == Err::<u32, ConfigError>(ConfigError::InvalidMode),
        },
{
    let n = value.unicode_len();
    let parsed = if n >= 2 && value.get_char(0) == '0' && value.get_char(1) == 'o' {
        parse_unsigned(value.substring_char(2, n), 8, u32::MAX as u64)
    } else if n > 1 && value.get_char(0) == '0' {
        let rest = value.substring_char(1, n);
        assert(rest@ =~= value@.drop_first());
        parse_unsigned(rest, 8, u32::MAX as u64)
    } else {
        parse_unsigned(value, 10, u32::MAX as u64)
    };
    match parsed {
        Some(m) => Ok(m as u32),
        None => Err(ConfigError::InvalidMode),
    }
}

/// What the command line gives: a configuration file, a log level and the
/// forwards written inline.
#[derive(Clone, Debug)]
pub struct Cli {
    pub config: Option<String>,
    pub log_level: Option<String>,
    pub inline_forwards: Vec<ForwardInline>,
}

/// What a configuration file holds: defaults and a list of forwards.
#[derive(Clone, Debug)]
pub struct FileConfig {
    pub defaults: Defaults,
    pub forward: Vec<ForwardSpec>,
}

/// Values that fill the fields a forward specification leaves unset.
#[derive(Clone, Debug)]
pub struct Defaults {
    pub uds_dir: Option<String>,
    pub mode: Option<u32>,
    pub owner: Option<Owner>,
    pub backlog: Option<u32>,
}

/// One forwarding rule.
#[derive(Clone, Debug)]
pub struct ForwardSpec {
    pub label: Option<String>,
    pub listen: Option<String>,
    pub namespace: Option<String>,
    pub setns_path: Option<String>,
    pub uds: Option<String>,
    pub target: Option<String>,
    pub udp_listen: Option<String>,
    pub udp_target: Option<String>,
    pub mode: Option<u32>,
    pub owner: Option<Owner>,
    pub backlog: Option<u32>,
    pub udp_idle_timeout: Option<u64>,
}

impl ForwardSpec {
    /// A specification that sets no field.
    pub fn empty() -> (r: ForwardSpec)
        ensures
            r.label.is_none() && r.listen.is_none() && r.namespace.is_none(),
            r.setns_path.is_none() && r.uds.is_none() && r.target.is_none(),
            r.udp_listen.is_none() && r.udp_target.is_none(),
            r.mode.is_none() && r.owner.is_none() && r.backlog.is_none(),
            r.udp_idle_timeout.is_none(),
    {
        ForwardSpec {
            label: None,
            listen: None,
            namespace: None,
            setns_path: None,
            uds: None,
            target: None,
            udp_listen: None,
            udp_target: None,
            mode: None,
            owner: None,
            backlog: None,
            udp_idle_timeout: None,
        }
    }

    /// The specification names a namespace, by name or by namespace file.
    pub open spec fn names_namespace(&self) -> bool {
        self.namespace.is_some() || self.setns_path.is_some()
    }

    pub open spec fn spec_requires_namespace_endpoint(&self) -> bool {
        self.target.is_some() && self.names_namespace()
    }

    pub open spec fn spec_requires_host_proxy(&self) -> bool {
        self.listen.is_some() && self.uds.is_some()
    }

    pub open spec fn spec_requires_tcp_proxy(&self) -> bool {
        self.listen.is_some() && self.target.is_some() && !self.names_namespace()
    }

    pub open spec fn spec_requires_udp_relay(&self) -> bool {
        self.udp_listen.is_some() && self.udp_target.is_some()
    }

    /// A namespace endpoint runs when a target and a namespace are both given.
    pub fn requires_namespace_endpoint(&self) -> (r: bool)
        ensures
            r == self.spec_requires_namespace_endpoint(),
    {
        self.target.is_some() && (self.namespace.is_some() || self.setns_path.is_some())
    }

    /// A host proxy runs when a listen address and a socket path are both given.
    pub fn requires_host_proxy(&self) -> (r: bool)
        ensures
            r == self.spec_requires_host_proxy(),
    {
        self.listen.is_some() && self.uds.is_some()
    }

    /// A direct TCP proxy runs for a listen address and a target outside any namespace.
    pub fn requires_tcp_proxy(&self) -> (r: bool)
        ensures
            r == self.spec_requires_tcp_proxy(),
    {
        self.listen.is_some() && self.target.is_some() && !(self.namespace.is_some()
            || self.setns_path.is_some())
    }

    /// A UDP relay runs when both UDP addresses are given.
    pub fn requires_udp_relay(&self) -> (r: bool)
        ensures
            r == self.spec_requires_udp_relay(),
    {
        self.udp_listen.is_some() && self.udp_target.is_some()
    }

    /// Listen backlog of the socket: the one given, else the default.
    pub fn backlog_or_default(&self) -> (r: u32)
        ensures
            r == (match self.backlog {
                Some(b) => b,
                None => DEFAULT_BACKLOG,
            }),
    {
        match self.backlog {
            Some(b) => b,
            None => DEFAULT_BACKLOG,
        }
    }

    /// Idle timeout of a UDP session in milliseconds: the seconds given, else
    /// the default, saturating at the largest value.
    pub fn udp_idle_timeout_ms(&self) -> (r: u64)
        ensures
            ({
                let secs = match self.udp_idle_timeout {
                    Some(t) => t,
                    None => DEFAULT_UDP_IDLE_TIMEOUT_SECS,
                };
                r == if secs * 1000 > u64::MAX { u64::MAX as int } else { secs * 1000 }
            }),
    {
        let secs = match self.udp_idle_timeout {
            Some(t) => t,
            None => DEFAULT_UDP_IDLE_TIMEOUT_SECS,
        };
        if secs > u64::MAX / 1000 {
            u64::MAX
        } else {
            secs * 1000
        }
    }

    /// The task kinds that the specification asks for, in a fixed order.
    pub open spec fn spec_task_kinds(&self) -> Seq<TaskKind> {
        (if self.spec_requires_namespace_endpoint() { seq![TaskKind::NamespaceEndpoint] } else { seq![] })
            + (if self.spec_requires_host_proxy() { seq![TaskKind::HostProxy] } else { seq![] })
            + (if self.spec_requires_tcp_proxy() { seq![TaskKind::TcpProxy] } else { seq![] })
            + (if self.spec_requires_udp_relay() { seq![TaskKind::UdpRelay] } else { seq![] })
    }

    /// Lists the tasks to start for this specification.
    pub fn task_kinds(&self) -> (r: Vec<TaskKind>)
        ensures
            r@ == self.spec_task_kinds(),
    {
        let mut r: Vec<TaskKind> = Vec::new();
        if self.requires_namespace_endpoint() {
            r.push(TaskKind::NamespaceEndpoint);
        }
        if self.requires_host_proxy() {
            r.push(TaskKind::HostProxy);
        }
        if self.requires_tcp_proxy() {
            r.push(TaskKind::TcpProxy);
        }
        if self.requires_udp_relay() {
            r.push(TaskKind::UdpRelay);
        }
        assert(r@ =~= self.spec_task_kinds());
        r
    }

    pub open spec fn spec_validate(&self) -> Result<(), SpecError> {
        if self.uds.is_none() {
            Err(SpecError::MissingUds)
        } else if self.listen.is_none() && !self.names_namespace() {
            Err(SpecError::NoEntryPoint)
        } else if self.spec_requires_namespace_endpoint() && self.target.is_none() {
            Err(SpecError::MissingTarget)
        } else {
            Ok(())
        }
    }

    /// Checks that the specification has a socket path and an entry point.
    pub fn validate(&self) -> (r: Result<(), SpecError>)
        ensures
            r == self.spec_validate(),
    {
        if self.uds.is_none() {
            return Err(SpecError::MissingUds);
        }
        if self.listen.is_none() && self.namespace.is_none() && self.setns_path.is_none() {
            return Err(SpecError::NoEntryPoint);
        }
        if self.requires_namespace_endpoint() && self.target.is_none() {
            return Err(SpecError::MissingTarget);
        }
        Ok(())
    }

    /// The socket path of a specification that has one.
    pub fn uds_path(&self) -> (r: &String)
        requires
            self.uds.is_some(),
        ensures
            self.uds == Some(*r),
    {
        self.uds.as_ref().unwrap()
    }

    /// Fills unset fields from `defaults`; a missing socket path becomes
    /// `<uds_dir>/<label>.sock` when both of those are known.
    pub fn apply_defaults(&mut self, defaults: &Defaults)
        ensures
            final(self).mode == (if old(self).mode.is_none() { defaults.mode } else { old(self).mode }),
            final(self).owner == (if old(self).owner.is_none() { defaults.owner } else { old(self).owner }),
            final(self).backlog == (if old(self).backlog.is_none() { defaults.backlog } else { old(self).backlog }),
            old(self).uds.is_none() && defaults.uds_dir.is_some() && old(self).label.is_some()
                ==> final(self).uds.is_some() && final(self).uds.unwrap()@ == path_join(
                defaults.uds_dir.unwrap()@,
                old(self).label.unwrap()@ + sock_suffix(),
            ),
            !(old(self).uds.is_none() && defaults.uds_dir.is_some() && old(self).label.is_some())
                ==> final(self).uds == old(self).uds,
            final(self).label == old(self).label,
            final(self).listen == old(self).listen,
            final(self).namespace == old(self).namespace,
            final(self).setns_path == old(self).setns_path,
            final(self).target == old(self).target,
            final(self).udp_listen == old(self).udp_listen,
            final(self).udp_target == old(self).udp_target,
            final(self).udp_idle_timeout == old(self).udp_idle_timeout,
    {
        if self.mode.is_none() {
            self.mode = defaults.mode;
        }
        if self.owner.is_none() {
            self.owner = defaults.owner;
        }
        if self.backlog.is_none() {
            self.backlog = defaults.backlog;
        }
        if self.uds.is_none() {
            match (&defaults.uds_dir, &self.label) {
                (Some(dir), Some(label)) => {
                    let mut file = String::from_str(label.as_str());
                    file.append(".sock");
                    proof {
                        reveal_strlit(".sock");
                    }
                    let path = join_path(dir.as_str(), file.as_str());
                    self.uds = Some(path);
                },
                _ => {},
            }
        }
    }
}

/// Listen backlog of a specification that sets none.
pub const DEFAULT_BACKLOG: u32 = 64;

/// Idle timeout, in seconds, of a UDP session when the specification sets none.
pub const DEFAULT_UDP_IDLE_TIMEOUT_SECS: u64 = 60;

/// `fwd` after `apply_defaults` with `d`, starting from `orig`.
pub open spec fn defaults_applied(orig: ForwardSpec, d: Defaults, fwd: ForwardSpec) -> bool {
    &&& fwd.mode == (if orig.mode.is_none() { d.mode } else { orig.mode })
    &&& fwd.owner == (if orig.owner.is_none() { d.owner } else { orig.owner })
    &&& fwd.backlog == (if orig.backlog.is_none() { d.backlog } else { orig.backlog })
    &&& if orig.uds.is_none() && d.uds_dir.is_some() && orig.label.is_some() {
        fwd.uds.is_some() && fwd.uds.unwrap()@ == path_join(
            d.uds_dir.unwrap()@,
            orig.label.unwrap()@ + sock_suffix(),
        )
    } else {
        fwd.uds == orig.uds
    }
    &&& fwd.label == orig.label
    &&& fwd.listen == orig.listen
    &&& fwd.namespace == orig.namespace
    &&& fwd.setns_path == orig.setns_path
    &&& fwd.target == orig.target
    &&& fwd.udp_listen == orig.udp_listen
    &&& fwd.udp_target == orig.udp_target
    &&& fwd.udp_idle_timeout == orig.udp_idle_timeout
}

/// The forwards from a file followed by those given inline.
pub open spec fn all_forwards(file: Seq<ForwardSpec>, inline: Seq<ForwardInline>) -> Seq<ForwardSpec> {
    file + inline.map_values(|f: ForwardInline| f.0)
}

/// Puts the forwards of a configuration file and those given inline into one
/// list, in that order, fills each from the defaults and validates it. The
/// first forward that fails validation fails the whole list.
pub fn merge_forwards(defaults: &Defaults, file: Vec<ForwardSpec>, inline: Vec<ForwardInline>) -> (r:
    Result<Vec<ForwardSpec>, SpecError>)
    ensures
        ({
            let all = all_forwards(file@, inline@);
            &&& r is Ok ==> r->Ok_0@.len() == all.len() && forall|i: int|
                0 <= i < all.len() ==> defaults_applied(all[i], *defaults, #[trigger] r->Ok_0@[i])
                    && r->Ok_0@[i].spec_validate() is Ok
            &&& r is Err ==> exists|i: int, f: ForwardSpec|
                0 <= i < all.len() && #[trigger] defaults_applied(all[i], *defaults, f)
                    && f.spec_validate() == Err::<(), SpecError>(r->Err_0)
            &&& (forall|i: int, f: ForwardSpec|
                0 <= i < all.len() && #[trigger] defaults_applied(all[i], *defaults, f)
                    ==> f.spec_validate() is Ok) ==> r is Ok
        }),
{
    let ghost all = all_forwards(file@, inline@);
    let ghost n = inline@.len();
    let mut pending: Vec<ForwardSpec> = file;
    let mut rest: Vec<ForwardInline> = inline;
    while rest.len() > 0
        invariant
            rest@.len() <= n,
            n == inline@.len(),
            rest@ == inline@.subrange(n - rest@.len(), n as int),
            pending@ == file@ + inline@.subrange(0, n - rest@.len()).map_values(
                |f: ForwardInline| f.0,
            ),
        decreases rest@.len(),
    {
        let ghost k = n - rest@.len();
        let f = rest.remove(0);
        assert(f == inline@[k]);
        pending.push(f.0);
        assert(inline@.subrange(0, k + 1).map_values(|f: ForwardInline| f.0) =~= inline@.subrange(
            0,
            k,
        ).map_values(|f: ForwardInline| f.0).push(inline@[k].0));
        assert(rest@ =~= inline@.subrange(n - rest@.len(), n as int));
    }
    assert(inline@.subrange(0, n as int) =~= inline@);
    assert(pending@ =~= all);
    let ghost m = all.len();
    let mut out: Vec<ForwardSpec> = Vec::new();
    while pending.len() > 0
        invariant
            pending@.len() <= m,
            m == all.len(),
            all == all_forwards(file@, inline@),
            pending@ == all.subrange(m - pending@.len(), m as int),
            out@.len() == m - pending@.len(),
            forall|i: int|
                0 <= i < out@.len() ==> defaults_applied(all[i], *defaults, #[trigger] out@[i])
                    && out@[i].spec_validate() is Ok,
        decreases pending@.len(),
    {
        let ghost k = m - pending@.len();
        let mut f = pending.remove(0);
        assert(f == all[k]);
        f.apply_defaults(defaults);
        match f.validate() {
            Err(e) => {
                assert(defaults_applied(all[k], *defaults, f));
                assert(f.spec_validate() == Err::<(), SpecError>(e));
                return Err(e);
            },
            Ok(()) => {},
        }
        out.push(f);
        assert(pending@ =~= all.subrange(m - pending@.len(), m as int));
    }
    proof {
        assert forall|i: int, f: ForwardSpec|
            0 <= i < all.len() && #[trigger] defaults_applied(all[i], *defaults, f) implies f.spec_validate()
            == out@[i].spec_validate() by {
            assert(defaults_applied(all[i], *defaults, out@[i]));
        }
    }
    Ok(out)
}

/// The tasks to start for a list of specifications: for each specification in
/// order, its position and each of its task kinds.
pub open spec fn spec_plan(specs: Seq<ForwardSpec>) -> Seq<(usize, TaskKind)>
    decreases specs.len(),
{
    if specs.len() == 0 {
        seq![]
    } else {
        let last = (specs.len() - 1) as usize;
        spec_plan(specs.drop_last()) + specs.last().spec_task_kinds().map_values(
            |k: TaskKind| (last, k),
        )
    }
}

/// Lists every task that the orchestrator starts for `specs`.
pub fn plan_tasks(specs: &Vec<ForwardSpec>) -> (r: Vec<(usize, TaskKind)>)
    ensures
        r@ == spec_plan(specs@),
{
    let mut r: Vec<(usize, TaskKind)> = Vec::new();
    let mut i: usize = 0;
    while i < specs.len()
        invariant
            i <= specs@.len(),
            r@ == spec_plan(specs@.subrange(0, i as int)),
        decreases specs@.len() - i,
    {
        let kinds = specs[i].task_kinds();
        let ghost before = r@;
        let mut j: usize = 0;
        while j < kinds.len()
            invariant
                j <= kinds@.len(),
                r@ == before + kinds@.subrange(0, j as int).map_values(|k: TaskKind| (i, k)),
            decreases kinds@.len() - j,
        {
            r.push((i, kinds[j]));
            assert(kinds@.subrange(0, j + 1).map_values(|k: TaskKind| (i, k)) =~= kinds@.subrange(
                0,
                j as int,
            ).map_values(|k: TaskKind| (i, k)).push((i, kinds@[j as int])));
            j = j + 1;
        }
        assert(kinds@.subrange(0, kinds@.len() as int) =~= kinds@);
        assert(specs@.subrange(0, i + 1).drop_last() =~= specs@.subrange(0, i as int));
        i = i + 1;
    }
    assert(specs@.subrange(0, specs@.len() as int) =~= specs@);
    r
}

/// File name suffix of a socket path derived from a label.
pub open spec fn sock_suffix() -> Seq<char> {
    seq!['.', 's', 'o', 'c', 'k']
}

/// The tasks that serve one forwarding rule.
#[derive(Clone, Copy, Debug, PartialEq, Eq, Structural)]
pub enum TaskKind {
    /// Enters the namespace, binds the socket there and dials the target.
    NamespaceEndpoint,
    /// Accepts TCP clients on the host and dials the Unix domain socket.
    HostProxy,
    /// Accepts TCP clients and dials the target directly.
    TcpProxy,
    /// Relays datagrams between clients and one fixed target.
    UdpRelay,
}

/// Why a forward specification was rejected.
#[derive(Clone, Copy, Debug, PartialEq, Eq, Structural)]
pub enum SpecError {
    /// No socket path, neither given nor derivable from the defaults.
    MissingUds,
    /// None of listen address, namespace or namespace file.
    NoEntryPoint,
    /// A namespace endpoint without a target.
    MissingTarget,
}

/// Which fields of a specification are present.
pub open spec fn presence(s: ForwardSpec) -> Seq<bool> {
    seq![
        s.listen.is_some(),
        s.namespace.is_some(),
        s.setns_path.is_some(),
        s.uds.is_some(),
        s.target.is_some(),
        s.udp_listen.is_some(),
        s.udp_target.is_some(),
    ]
}

/// Deriving the task kinds is a pure function of which address fields are
/// present: two specifications that set the same fields, whatever their
/// values, start the same tasks, and one specification always starts the same.
pub proof fn task_kinds_deterministic(a: ForwardSpec, b: ForwardSpec)
    requires
        presence(a) == presence(b),
    ensures
        a.spec_task_kinds() == b.spec_task_kinds(),
{
    assert(presence(a)[0] == presence(b)[0]);
    assert(presence(a)[1] == presence(b)[1]);
    assert(presence(a)[2] == presence(b)[2]);
    assert(presence(a)[3] == presence(b)[3]);
    assert(presence(a)[4] == presence(b)[4]);
    assert(presence(a)[5] == presence(b)[5]);
    assert(presence(a)[6] == presence(b)[6]);
}

/// One forward specification written inline as `key=value` pairs separated
/// by commas, such as `listen=0.0.0.0:2222,uds=/run/relay/ssh.sock`.
#[derive(Clone, Debug)]
pub struct ForwardInline(pub ForwardSpec);

/// A piece of an inline entry holds an `=`.
pub open spec fn is_pair(piece: Seq<char>) -> bool {
    has_char(piece, '=')
}

/// Key and value of a piece, white space trimmed.
pub open spec fn pair_of(piece: Seq<char>) -> (Seq<char>, Seq<char>) {
    (trim(before_first(piece, '=')), trim(after_first(piece, '=')))
}

/// Every piece between commas holds an `=`.
pub open spec fn all_pairs(s: Seq<char>) -> bool {
    forall|i: int| 0 <= i < split_commas(s).len() ==> is_pair(#[trigger] split_commas(s)[i])
}

/// The key and value pairs of an inline entry, in order.
pub open spec fn pairs_of(s: Seq<char>) -> Seq<(Seq<char>, Seq<char>)> {
    split_commas(s).map_values(|p: Seq<char>| pair_of(p))
}

/// The value of the last pair whose key is `name`, ignoring ASCII case.
pub open spec fn last_value(pairs: Seq<(Seq<char>, Seq<char>)>, name: Seq<char>) -> Option<Seq<char>>
    decreases pairs.len(),
{
    if pairs.len() == 0 {
        None
    } else if lower_eq(pairs.last().0, name) {
        Some(pairs.last().1)
    } else {
        last_value(pairs.drop_last(), name)
    }
}

/// A key that some field of a specification answers to.
pub open spec fn is_known_key(k: Seq<char>) -> bool {
    lower_eq(k, "listen"@) || lower_eq(k, "namespace"@) || lower_eq(k, "setns_path"@) || lower_eq(
        k,
        "uds"@,
    ) || lower_eq(k, "target"@) || lower_eq(k, "udp_listen"@) || lower_eq(k, "udp_target"@)
        || lower_eq(k, "mode"@) || lower_eq(k, "owner"@) || lower_eq(k, "backlog"@) || lower_eq(
        k,
        "label"@,
    ) || lower_eq(k, "udp_idle_timeout"@)
}

/// The error that the mode or the owner of the pairs gives, when the result
/// does not depend on the user and group databases.
pub open spec fn front_error(p: Seq<(Seq<char>, Seq<char>)>) -> Option<ConfigError> {
    if last_value(p, "mode"@) is Some && spec_parse_mode(last_value(p, "mode"@)->Some_0) is None {
        Some(ConfigError::InvalidMode)
    } else if last_value(p, "owner"@) is Some && owner_outcome(last_value(p, "owner"@)->Some_0) is Some
        && owner_outcome(last_value(p, "owner"@)->Some_0)->Some_0 is Err {
        Some(owner_outcome(last_value(p, "owner"@)->Some_0)->Some_0->Err_0)
    } else {
        None
    }
}

/// The owner of the pairs is absent or does not depend on the databases.
pub open spec fn owner_decided(p: Seq<(Seq<char>, Seq<char>)>) -> bool {
    last_value(p, "owner"@) is None || owner_outcome(last_value(p, "owner"@)->Some_0) is Some
}

/// The error that the backlog, the idle timeout or the keys give.
pub open spec fn tail_error(p: Seq<(Seq<char>, Seq<char>)>) -> Option<ConfigError> {
    if last_value(p, "backlog"@) is Some && spec_numeric_id(last_value(p, "backlog"@)->Some_0) is None {
        Some(ConfigError::InvalidBacklog)
    } else if last_value(p, "udp_idle_timeout"@) is Some && spec_parse_unsigned(
        last_value(p, "udp_idle_timeout"@)->Some_0,
        10,
        u64::MAX,
    ) is None {
        Some(ConfigError::InvalidIdleTimeout)
    } else if exists|i: int| 0 <= i < p.len() && !is_known_key(#[trigger] p[i].0) {
        Some(ConfigError::UnknownKey)
    } else {
        None
    }
}

/// The text field holds the value given for it, if any.
pub open spec fn text_field(f: Option<String>, v: Option<Seq<char>>) -> bool {
    match v {
        None => f is None,
        Some(t) => f is Some && f->Some_0@ == t,
    }
}

/// Every field of `spec` holds what the pairs give for it.
pub open spec fn fields_from(spec: ForwardSpec, p: Seq<(Seq<char>, Seq<char>)>) -> bool {
    &&& text_field(spec.label, last_value(p, "label"@))
    &&& text_field(spec.listen, last_value(p, "listen"@))
    &&& text_field(spec.namespace, last_value(p, "namespace"@))
    &&& text_field(spec.setns_path, last_value(p, "setns_path"@))
    &&& text_field(spec.uds, last_value(p, "uds"@))
    &&& text_field(spec.target, last_value(p, "target"@))
    &&& text_field(spec.udp_listen, last_value(p, "udp_listen"@))
    &&& text_field(spec.udp_target, last_value(p, "udp_target"@))
    &&& spec.mode == (match last_value(p, "mode"@) {
        None => None,
        Some(v) => spec_parse_mode(v),
    })
    &&& match last_value(p, "owner"@) {
        None => spec.owner is None,
        Some(v) => spec.owner is Some && (owner_outcome(v) is Some ==> owner_outcome(v)
            == Some(Ok::<Owner, ConfigError>(spec.owner->Some_0))),
    }
    &&& spec.backlog == (match last_value(p, "backlog"@) {
        None => None,
        Some(v) => spec_numeric_id(v),
    })
    &&& spec.udp_idle_timeout == (match last_value(p, "udp_idle_timeout"@) {
        None => None,
        Some(v) => spec_parse_unsigned(v, 10, u64::MAX),
    })
}

/// The views of borrowed key and value pairs.
pub open spec fn pairs_view(v: Seq<(&str, &str)>) -> Seq<(Seq<char>, Seq<char>)> {
    v.map_values(|e: (&str, &str)| (e.0@, e.1@))
}

/// The value of the last pair whose key is `name`.
fn find_last<'a>(pairs: &Vec<(&'a str, &'a str)>, name: &str) -> (r: Option<&'a str>)
    ensures
        match r {
            Some(v) => last_value(pairs_view(pairs@), name@) == Some(v@),
            None => last_value(pairs_view(pairs@), name@) is None,
        },
{
    let ghost pv = pairs_view(pairs@);
    let mut i: usize = pairs.len();
    assert(pv.subrange(0, i as int) =~= pv);
    while i > 0
        invariant
            i <= pairs@.len(),
            pv == pairs_view(pairs@),
            last_value(pv, name@) == last_value(pv.subrange(0, i as int), name@),
        decreases i,
    {
        let (k, v) = pairs[i - 1];
        let ghost sub = pv.subrange(0, i as int);
        assert(sub.last() == (k@, v@));
        if eq_lower(k, name) {
            return Some(v);
        }
        assert(sub.drop_last() =~= pv.subrange(0, i - 1));
        i = i - 1;
    }
    None
}

/// Whether some field answers to the key `k`.
fn key_is_known(k: &str) -> (r: bool)
    ensures
        r == is_known_key(k@),
{
    eq_lower(k, "listen") || eq_lower(k, "namespace") || eq_lower(k, "setns_path") || eq_lower(
        k,
        "uds",
    ) || eq_lower(k, "target") || eq_lower(k, "udp_listen") || eq_lower(k, "udp_target")
        || eq_lower(k, "mode") || eq_lower(k, "owner") || eq_lower(k, "backlog") || eq_lower(
        k,
        "label",
    ) || eq_lower(k, "udp_idle_timeout")
}

/// Whether every key of the pairs is known.
fn all_keys_known(pairs: &Vec<(&str, &str)>) -> (r: bool)
    ensures
        r == !exists|i: int|
            0 <= i < pairs_view(pairs@).len() && !is_known_key(#[trigger] pairs_view(pairs@)[i].0),
{
    let ghost p = pairs_view(pairs@);
    let mut j: usize = 0;
    while j < pairs.len()
        invariant
            j <= pairs@.len(),
            p == pairs_view(pairs@),
            forall|a: int| 0 <= a < j ==> is_known_key(#[trigger] p[a].0),
        decreases pairs@.len() - j,
    {
        let (k, _) = pairs[j];
        if !key_is_known(k) {
            assert(!is_known_key(p[j as int].0));
            return false;
        }
        j = j + 1;
    }
    true
}

/// An owned copy of a text value.
fn text_of(v: Option<&str>) -> (r: Option<String>)
    ensures
        match v {
            None => r is None,
            Some(t) => r is Some && r->Some_0@ == t@,
        },
{
    match v {
        None => None,
        Some(t) => Some(String::from_str(t)),
    }
}

impl ForwardInline {
    /// Reads an inline forward entry. Keys are matched without regard to
    /// ASCII case, keys and values are trimmed, and a key given twice takes
    /// its last value.
    pub fn parse(s: &str) -> (r: Result<ForwardInline, ConfigError>)
        ensures
            !all_pairs(s@) ==> r == Err::<ForwardInline, ConfigError>(ConfigError::MissingEquals),
            all_pairs(s@) ==> match front_error(pairs_of(s@)) {
                Some(e) => r == Err::<ForwardInline, ConfigError>(e),
                None => owner_decided(pairs_of(s@)) ==> match tail_error(pairs_of(s@)) {
                    Some(e) => r == Err::<ForwardInline, ConfigError>(e),
                    None => r is Ok,
                },
            },
            r is Ok ==> all_pairs(s@) && front_error(pairs_of(s@)) is None && tail_error(
                pairs_of(s@),
            ) is None && fields_from(r->Ok_0.0, pairs_of(s@)),
    {
        let pieces = split_at_commas(s);
        let ghost split = split_commas(s@);
        let mut pairs: Vec<(&str, &str)> = Vec::new();
        let mut i: usize = 0;
        while i < pieces.len()
            invariant
                i <= pieces@.len(),
                pieces@.map_values(|p: &str| p@) == split,
                split == split_commas(s@),
                pairs_view(pairs@) == split.subrange(0, i as int).map_values(|p: Seq<char>| pair_of(p)),
                forall|j: int| 0 <= j < i ==> is_pair(#[trigger] split[j]),
            decreases pieces@.len() - i,
        {
            let piece = pieces[i];
            assert(split[i as int] == piece@);
            match split_once(piece, '=') {
                None => {
                    assert(!all_pairs(s@)) by {
                        assert(!is_pair(split[i as int]));
                    }
                    return Err(ConfigError::MissingEquals);
                },
                Some((k, v)) => {
                    let ghost before = pairs@;
                    pairs.push((trimmed(k), trimmed(v)));
                    assert(pairs_view(pairs@) =~= pairs_view(before).push(pair_of(piece@)));
                    assert(split.subrange(0, i + 1).map_values(|p: Seq<char>| pair_of(p))
                        =~= split.subrange(0, i as int).map_values(|p: Seq<char>| pair_of(p)).push(
                        pair_of(piece@),
                    ));
                },
            }
            i = i + 1;
        }
        let ghost p = pairs_of(s@);
        assert(split.subrange(0, split.len() as int) =~= split);
        assert(pairs_view(pairs@) == p);
        assert(all_pairs(s@));
        let mode = match find_last(&pairs, "mode") {
            None => None,
            Some(v) => match parse_mode(v) {
                Ok(m) => Some(m),
                Err(e) => return Err(e),
            },
        };
        let owner = match find_last(&pairs, "owner") {
            None => None,
            Some(v) => match Owner::parse(v) {
                Ok(o) => Some(o),
                Err(e) => return Err(e),
            },
        };
        let backlog = match find_last(&pairs, "backlog") {
            None => None,
            Some(v) => match parse_unsigned(v, 10, u32::MAX as u64) {
                Some(b) => {
                    assert(b <= u32::MAX);
                    Some(b as u32)
                },
                None => return Err(ConfigError::InvalidBacklog),
            },
        };
        let udp_idle_timeout = match find_last(&pairs, "udp_idle_timeout") {
            None => None,
            Some(v) => match parse_unsigned(v, 10, u64::MAX) {
                Some(t) => Some(t),
                None => return Err(ConfigError::InvalidIdleTimeout),
            },
        };
        if !all_keys_known(&pairs) {
            return Err(ConfigError::UnknownKey);
        }
        let spec = ForwardSpec {
            label: text_of(find_last(&pairs, "label")),
            listen: text_of(find_last(&pairs, "listen")),
            namespace: text_of(find_last(&pairs, "namespace")),
            setns_path: text_of(find_last(&pairs, "setns_path")),
            uds: text_of(find_last(&pairs, "uds")),
            target: text_of(find_last(&pairs, "target")),
            udp_listen: text_of(find_last(&pairs, "udp_listen")),
            udp_target: text_of(find_last(&pairs, "udp_target")),
            mode,
            owner,
            backlog,
            udp_idle_timeout,
        };
        Ok(ForwardInline(spec))
    }
}

impl std::str::FromStr for ForwardInline {
    type Err = ConfigError;

    fn from_str(s: &str) -> Result<ForwardInline, ConfigError> {
        ForwardInline::parse(s)
    }
}

impl std::str::FromStr for Owner {
    type Err = ConfigError;

    fn from_str(s: &str) -> Result<Owner, ConfigError> {
        Owner::parse(s)
    }
}

} // verus!
