//! The daemon actor: the one owner of the daemon's state. Each command is
//! applied to that state here; the network and filesystem work a command
//! needs is handed back to the caller as an `Action`, whose outcome comes
//! back through one of the `finish_` methods.
use vstd::prelude::*;

use crate::files::{
    apply_ops, commit_spec, entry_of, fetch_path_spec, fold_unhost, host_error, host_spec,
    keys_unique, no_match, pushed_entry, store_path_spec, unhost_ops, EntryView, FileRegistry,
    PathKind, RegistryOp,
};
use crate::ipc::{
    opt_text, AnyHost, Backit, Command, Credentials, FileTarget, ReceivePacket, SendPacket, ServerError,
    ServerInfo, ServerReply, Target, TargetView,
};
use crate::sessions::{
    can_insert, resolvable, resolves, sessions_wf, Session, SessionRegistry, SessionView,
};

verus! {

/// Settings that a reload replaces as a whole.
#[derive(Debug, Clone, Copy, PartialEq, Eq)]
pub struct Config {
    /// whether a session opened for a single fetch or push with fresh
    /// credentials stays open afterwards
    pub retain_adhoc_sessions: bool,
}

/// Where a request to a peer goes.
#[derive(Debug, PartialEq, Eq)]
pub enum Peer {
    /// the live session with this stable id
    Session(String),
    /// a new connection made with the command's credentials
    Dial,
}

/// What the caller does next for a command.
#[derive(Debug, PartialEq, Eq)]
pub enum Action {
    /// answer the command with this reply
    Reply(ServerReply),
    /// load the configuration, then call `finish_reload`
    LoadConfig,
    /// connect with the command's credentials, then call `finish_connect`
    Dial,
    /// probe what the filesystem holds at the command's path, then call
    /// `finish_host`
    Probe,
    /// send the request to the peer, then call `finish_request`
    Send(Peer, Request),
}

/// What a command asks of a peer; the target is the command's own.
#[derive(Debug, PartialEq, Eq)]
pub enum Request {
    /// `SendPacket::TargetQuery`: the content of the first match
    TargetQuery,
    /// `SendPacket::Store`: the content of the local file at this path
    Store(String),
    /// `SendPacket::InfoQuery`
    InfoQuery,
}

pub enum RequestView {
    TargetQuery,
    Store(Seq<char>),
    InfoQuery,
}

pub open spec fn request_view(r: Request) -> RequestView {
    match r {
        Request::TargetQuery => RequestView::TargetQuery,
        Request::Store(p) => RequestView::Store(p@),
        Request::InfoQuery => RequestView::InfoQuery,
    }
}

/// How a daemon answers a peer's request; the caller does the file work.
#[derive(Debug, PartialEq, Eq)]
pub enum Answer {
    /// send the content of the file at this path
    Read(String),
    /// write the pushed content at this path, then call `commit_store`
    Write(String),
    /// send `ReceivePacket::NotFound`
    NotFound,
    /// send `ReceivePacket::Info`
    Info(ServerInfo),
}

/// What an authenticated peer told us about itself.
#[derive(Debug)]
pub struct Handshake {
    pub id: String,
    pub name: Option<String>,
}

pub open spec fn target_views(v: Seq<Target>) -> Seq<TargetView> {
    v.map_values(|t: Target| t@)
}

/// The registry steps a command takes by itself; `Host` takes its step in
/// `finish_host`, once the path is probed.
pub open spec fn command_ops(c: Command) -> Seq<RegistryOp> {
    match c {
        Command::Unhost(ts) => unhost_ops(target_views(ts@)),
        _ => Seq::empty(),
    }
}

/// The registry step hosting `t` takes: none when the path fails its check.
pub open spec fn host_ops(t: FileTarget, tags: Seq<String>, kind: PathKind) -> Seq<RegistryOp> {
    if host_error(t, kind) is None {
        seq![RegistryOp::Host(entry_of(t, tags))]
    } else {
        Seq::empty()
    }
}

/// The registry step a committed push of `t` takes: none when an entry
/// already matches `t`.
pub open spec fn commit_ops(s: Seq<EntryView>, t: TargetView, path: Seq<char>) -> Seq<RegistryOp> {
    if no_match(s, t) {
        seq![RegistryOp::Host(pushed_entry(t, path))]
    } else {
        Seq::empty()
    }
}

/// The `active` flag after a command.
pub open spec fn active_after(active: bool, c: Command) -> bool {
    match c {
        Command::Start => true,
        Command::Stop => false,
        _ => active,
    }
}

/// The name a new session goes by: the nickname asked for, else the name
/// the peer advertised, else the id in the credentials.
pub open spec fn chosen_name(
    credentials: Credentials,
    advertised: Option<String>,
    nickname: Option<String>,
) -> Option<Seq<char>> {
    if nickname is Some {
        opt_text(nickname)
    } else if advertised is Some {
        opt_text(advertised)
    } else {
        match credentials {
            Credentials::Password { id, .. } => Some(id@),
            _ => None,
        }
    }
}

/// The reply a peer's answer (or the failure to get one) turns into.
pub open spec fn reply_of(outcome: Result<ReceivePacket, ServerError>) -> ServerReply {
    match outcome {
        Ok(ReceivePacket::Content(bytes)) => ServerReply::Fetched(bytes),
        Ok(ReceivePacket::Stored) => ServerReply::Backuped,
        Ok(ReceivePacket::NotFound) => ServerReply::Error(ServerError::TargetNotFound),
        Ok(ReceivePacket::Info(info)) => ServerReply::Info(info),
        Err(e) => ServerReply::Error(e),
    }
}

/// Whether `r` sends `request` to `host` as `s` resolves it; an id that resolves to no session is answered
/// with `HostNotFound`.
pub open spec fn routes(
    s: Seq<SessionView>,
    host: AnyHost,
    request: RequestView,
    r: Action,
) -> bool {
    match host {
        AnyHost::HostId(h) => if resolvable(s, h@) {
            &&& r is Send
            &&& request_view(r->Send_1) == request
            &&& r->Send_0 is Session
            &&& exists|i: int| resolves(s, h@, i) && r->Send_0->Session_0@ == s[i].id
        } else {
            r == Action::Reply(ServerReply::Error(ServerError::HostNotFound))
        },
        AnyHost::Credentials(_) => r is Send && r->Send_0 == Peer::Dial && request_view(r->Send_1)
            == request,
    }
}

/// The daemon's state: whether it is active, what it hosts, whom it is
/// connected to, and its configuration.
pub struct Server {
    active: bool,
    files: FileRegistry,
    sessions: SessionRegistry,
    config: Config,
}

impl Server {
    pub closed spec fn active_spec(&self) -> bool {
        self.active
    }

    pub closed spec fn files_view(&self) -> Seq<EntryView> {
        self.files@
    }

    pub closed spec fn sessions_view(&self) -> Seq<SessionView> {
        self.sessions@
    }

    pub closed spec fn config_spec(&self) -> Config {
        self.config
    }

    /// Hosted entries have unique keys; live sessions have unique stable
    /// ids and unique nicknames.
    pub open spec fn wf(&self) -> bool {
        keys_unique(self.files_view()) && sessions_wf(self.sessions_view())
    }

    pub open spec fn same_registries(&self, other: Server) -> bool {
        &&& self.files_view() == other.files_view()
        &&& self.sessions_view() == other.sessions_view()
    }

    pub open spec fn same_state(&self, other: Server) -> bool {
        &&& self.active_spec() == other.active_spec()
        &&& self.files_view() == other.files_view()
        &&& self.sessions_view() == other.sessions_view()
        &&& self.config_spec() == other.config_spec()
    }

    /// A daemon that is not active and hosts and knows nothing.
    pub fn new(config: Config) -> (r: Server)
        ensures
            r.wf(),
            !r.active_spec(),
            r.files_view() == Seq::<EntryView>::empty(),
            r.sessions_view() == Seq::<SessionView>::empty(),
            r.config_spec() == config,
    {
        Server {
            active: false,
            files: FileRegistry::new(),
            sessions: SessionRegistry::new(),
            config,
        }
    }

    pub fn server_info(&self) -> (r: ServerInfo)
        ensures
            r.active_spec() == self.active_spec(),
            r.file_count_spec() == self.files_view().len(),
    {
        ServerInfo::new(self.active, self.files.count())
    }

    pub fn files(&self) -> (r: &FileRegistry)
        ensures
            r@ == self.files_view(),
    {
        &self.files
    }

    pub fn sessions(&self) -> (r: &SessionRegistry)
        ensures
            r@ == self.sessions_view(),
    {
        &self.sessions
    }

    pub fn config(&self) -> (r: Config)
        ensures
            r == self.config_spec(),
    {
        self.config
    }

    /// Where a request to `host` goes.
    fn route(&self, host: &AnyHost, request: Request) -> (r: Action)
        ensures
            routes(self.sessions_view(), *host, request_view(request), r),
    {
        match host {
            AnyHost::HostId(h) => match self.sessions.resolve(h) {
                Some(i) => Action::Send(
                    Peer::Session(self.sessions.get(i).id().clone()),
                    request,
                ),
                None => Action::Reply(ServerReply::Error(ServerError::HostNotFound)),
            },
            AnyHost::Credentials(_) => Action::Send(Peer::Dial, request),
        }
    }

    /// Applies a command to the daemon's state and says what is to be done
    /// next: the reply, or the outside work the command waits on.
    pub fn handle_user_command(&mut self, backit: &Backit) -> (r: Action)
        requires
            old(self).wf(),
        ensures
            final(self).wf(),
            final(self).active_spec() == active_after(
                old(self).active_spec(),
                backit.command_spec(),
            ),
            final(self).config_spec() == old(self).config_spec(),
            final(self).files_view() == apply_ops(
                old(self).files_view(),
                command_ops(backit.command_spec()),
            ),
            match backit.command_spec() {
                Command::Start => r == Action::Reply(ServerReply::Started) && final(self).same_registries(*old(self)),
                Command::Stop => r == Action::Reply(ServerReply::Stopped) && final(self).same_registries(*old(self)),
                Command::Reload => r == Action::LoadConfig && final(self).same_state(*old(self)),
                Command::Connect { .. } => r == Action::Dial && final(self).same_state(*old(self)),
                Command::Host { .. } => r == Action::Probe && final(self).same_state(*old(self)),
                Command::Disconnect(h) => {
                    &&& final(self).files_view() == old(self).files_view()
                    &&& if resolvable(old(self).sessions_view(), h@) {
                        &&& r == Action::Reply(ServerReply::Disconnect)
                        &&& exists|i: int|
                            resolves(old(self).sessions_view(), h@, i) && final(self).sessions_view()
                                == old(self).sessions_view().remove(i)
                    } else {
                        &&& r == Action::Reply(ServerReply::Error(ServerError::HostNotFound))
                        &&& final(self).sessions_view() == old(self).sessions_view()
                    }
                },
                Command::Unhost(targets) => {
                    &&& r == Action::Reply(ServerReply::UnHostFile)
                    &&& final(self).files_view() == fold_unhost(
                        old(self).files_view(),
                        target_views(targets@),
                    )
                    &&& final(self).sessions_view() == old(self).sessions_view()
                },
                Command::Fetch { host, .. } => final(self).same_state(*old(self)) && routes(
                    old(self).sessions_view(),
                    host,
                    RequestView::TargetQuery,
                    r,
                ),
                Command::Push { host, target } => final(self).same_state(*old(self)) && match fetch_path_spec(
                    old(self).files_view(),
                    target@,
                ) {
                    None => r == Action::Reply(ServerReply::Error(ServerError::TargetNotFound)),
                    Some(p) => routes(old(self).sessions_view(), host, RequestView::Store(p), r),
                },
                Command::ServerStatus(None) => final(self).same_state(*old(self)) && r is Reply
                    && r->Reply_0 is Info && r->Reply_0->Info_0.active_spec() == old(self).active_spec() && r->Reply_0->Info_0.file_count_spec() == old(self).files_view().len(),
                Command::ServerStatus(Some(host)) => final(self).same_state(*old(self)) && routes(
                    old(self).sessions_view(),
                    host,
                    RequestView::InfoQuery,
                    r,
                ),
            },
    {
        match backit.command() {
            Command::Start => {
                self.active = true;
                Action::Reply(ServerReply::Started)
            },
            Command::Stop => {
                self.active = false;
                Action::Reply(ServerReply::Stopped)
            },
            Command::Reload => Action::LoadConfig,
            Command::Connect { .. } => Action::Dial,
            Command::Host { .. } => Action::Probe,
            Command::Disconnect(h) => match self.sessions.remove(h) {
                Some(_) => Action::Reply(ServerReply::Disconnect),
                None => Action::Reply(ServerReply::Error(ServerError::HostNotFound)),
            },
            Command::Unhost(targets) => {
                let ghost s0 = self.files@;
                let mut i: usize = 0;
                while i < targets.len()
                    invariant
                        i <= targets@.len(),
                        self.files.wf(),
                        self.sessions.wf(),
                        self.files@ == fold_unhost(s0, target_views(targets@).take(i as int)),
                        self.sessions@ == old(self).sessions@,
                        self.active == old(self).active,
                        self.config == old(self).config,
                    decreases targets@.len() - i,
                {
                    self.files.unhost(&targets[i]);
                    proof {
                        let tv = target_views(targets@);
                        assert(tv.take(i as int + 1).drop_last() =~= tv.take(i as int));
                        assert(tv.take(i as int + 1).last() == targets@[i as int]@);
                    }
                    i = i + 1;
                }
                assert(target_views(targets@).take(targets@.len() as int) =~= target_views(
                    targets@,
                ));
                proof {
                    crate::files::lemma_unhost_ops(s0, target_views(targets@));
                }
                Action::Reply(ServerReply::UnHostFile)
            },
            Command::Fetch { host, .. } => self.route(host, Request::TargetQuery),
            Command::Push { host, target } => match self.files.fetch_path(target) {
                Some(p) => self.route(host, Request::Store(p)),
                None => Action::Reply(ServerReply::Error(ServerError::TargetNotFound)),
            },
            Command::ServerStatus(None) => Action::Reply(ServerReply::Info(self.server_info())),
            Command::ServerStatus(Some(host)) => self.route(host, Request::InfoQuery),
        }
    }

    /// Swaps in a loaded configuration, or keeps the old one whole when
    /// loading failed.
    pub fn finish_reload(&mut self, loaded: Result<Config, ServerError>) -> (r: ServerReply)
        requires
            old(self).wf(),
        ensures
            final(self).wf(),
            match loaded {
                Ok(c) => {
                    &&& r == ServerReply::Reloaded
                    &&& final(self).config_spec() == c
                    &&& final(self).active_spec() == old(self).active_spec()
                    &&& final(self).same_registries(*old(self))
                },
                Err(_) => r == ServerReply::Error(ServerError::ConfigError) && final(self).same_state(*old(self)),
            },
    {
        match loaded {
            Ok(c) => {
                self.config = c;
                ServerReply::Reloaded
            },
            Err(_) => ServerReply::Error(ServerError::ConfigError),
        }
    }

    /// Records the outcome of a `Connect`: on success a session under the
    /// chosen name, unless its id or name is taken.
    pub fn finish_connect(
        &mut self,
        credentials: &Credentials,
        nickname: Option<String>,
        outcome: Result<Handshake, ServerError>,
    ) -> (r: ServerReply)
        requires
            old(self).wf(),
        ensures
            final(self).wf(),
            final(self).active_spec() == old(self).active_spec(),
            final(self).files_view() == old(self).files_view(),
            final(self).config_spec() == old(self).config_spec(),
            match outcome {
                Err(e) => r == ServerReply::Error(e) && final(self).sessions_view() == old(self).sessions_view(),
                Ok(h) => {
                    let v = SessionView {
                        id: h.id@,
                        nickname: chosen_name(*credentials, h.name, nickname),
                    };
                    if can_insert(old(self).sessions_view(), v) {
                        &&& r is Connected
                        &&& opt_text(r->Connected_0) == v.nickname
                        &&& final(self).sessions_view() == old(self).sessions_view().push(v)
                    } else {
                        &&& r == ServerReply::Error(ServerError::DuplicateId)
                        &&& final(self).sessions_view() == old(self).sessions_view()
                    }
                },
            },
    {
        match outcome {
            Err(e) => ServerReply::Error(e),
            Ok(h) => {
                let name = if nickname.is_some() {
                    nickname
                } else if h.name.is_some() {
                    h.name
                } else {
                    match credentials {
                        Credentials::Password { id, .. } => Some(id.clone()),
                        _ => None,
                    }
                };
                let reply_name = crate::sessions::copy_opt_text(&name);
                match self.sessions.insert(Session::new(h.id, name)) {
                    Ok(()) => ServerReply::Connected(reply_name),
                    Err(e) => ServerReply::Error(e),
                }
            },
        }
    }

    /// Hosts a target once the filesystem has been probed at its path.
    pub fn finish_host(&mut self, target: &FileTarget, tags: &Vec<String>, kind: PathKind) -> (r:
        ServerReply)
        requires
            old(self).wf(),
        ensures
            final(self).wf(),
            final(self).active_spec() == old(self).active_spec(),
            final(self).sessions_view() == old(self).sessions_view(),
            final(self).config_spec() == old(self).config_spec(),
            final(self).files_view() == apply_ops(old(self).files_view(), host_ops(*target, tags@, kind)),
            match host_error(*target, kind) {
                Some(e) => r == ServerReply::Error(e) && final(self).files_view() == old(self).files_view(),
                None => r == ServerReply::HostFile(*target) && final(self).files_view() == host_spec(
                    old(self).files_view(),
                    entry_of(*target, tags@),
                ),
            },
    {
        proof {
            crate::files::lemma_apply_single(self.files@, RegistryOp::Host(entry_of(*target, tags@)));
        }
        match self.files.host(target, tags, kind) {
            Ok(_) => ServerReply::HostFile(target.copy()),
            Err(e) => ServerReply::Error(e),
        }
    }

    /// Turns a peer's answer into the command's reply. A session opened for
    /// this request alone (`dialed`) is kept when the configuration says so
    /// and its id and name are free.
    pub fn finish_request(
        &mut self,
        dialed: Option<Handshake>,
        outcome: Result<ReceivePacket, ServerError>,
    ) -> (r: ServerReply)
        requires
            old(self).wf(),
        ensures
            final(self).wf(),
            r == reply_of(outcome),
            final(self).active_spec() == old(self).active_spec(),
            final(self).files_view() == old(self).files_view(),
            final(self).config_spec() == old(self).config_spec(),
            match dialed {
                Some(h) => {
                    let v = SessionView { id: h.id@, nickname: opt_text(h.name) };
                    if old(self).config_spec().retain_adhoc_sessions && can_insert(
                        old(self).sessions_view(),
                        v,
                    ) {
                        final(self).sessions_view() == old(self).sessions_view().push(v)
                    } else {
                        final(self).sessions_view() == old(self).sessions_view()
                    }
                },
                None => final(self).sessions_view() == old(self).sessions_view(),
            },
    {
        if let Some(h) = dialed {
            if self.config.retain_adhoc_sessions {
                let _ = self.sessions.insert(Session::new(h.id, h.name));
            }
        }
        match outcome {
            Ok(ReceivePacket::Content(bytes)) => ServerReply::Fetched(bytes),
            Ok(ReceivePacket::Stored) => ServerReply::Backuped,
            Ok(ReceivePacket::NotFound) => ServerReply::Error(ServerError::TargetNotFound),
            Ok(ReceivePacket::Info(info)) => ServerReply::Info(info),
            Err(e) => ServerReply::Error(e),
        }
    }

    /// How to answer a peer's request. A query reads the first matching
    /// entry's file; a push is written where `store_path` puts it, `fresh`
    /// when nothing matches its target.
    pub fn answer(&self, packet: &SendPacket, fresh: String) -> (r: Answer)
        ensures
            match *packet {
                SendPacket::TargetQuery(t) => match fetch_path_spec(self.files_view(), t@) {
                    Some(p) => r is Read && r->Read_0@ == p,
                    None => r == Answer::NotFound,
                },
                SendPacket::Store { target, .. } => r is Write && r->Write_0@ == store_path_spec(
                    self.files_view(),
                    target@,
                    fresh@,
                ),
                SendPacket::InfoQuery => r is Info && r->Info_0.active_spec() == self.active_spec()
                    && r->Info_0.file_count_spec() == self.files_view().len(),
            },
    {
        match packet {
            SendPacket::TargetQuery(t) => match self.files.fetch_path(t) {
                Some(p) => Answer::Read(p),
                None => Answer::NotFound,
            },
            SendPacket::Store { target, .. } => Answer::Write(self.files.store_path(target, fresh)),
            SendPacket::InfoQuery => Answer::Info(self.server_info()),
        }
    }

    /// Records a push from a peer once its content is written at `path`.
    pub fn commit_store(&mut self, t: &Target, path: String)
        requires
            old(self).wf(),
        ensures
            final(self).wf(),
            final(self).active_spec() == old(self).active_spec(),
            final(self).sessions_view() == old(self).sessions_view(),
            final(self).config_spec() == old(self).config_spec(),
            final(self).files_view() == commit_spec(old(self).files_view(), t@, path@),
            final(self).files_view() == apply_ops(
                old(self).files_view(),
                commit_ops(old(self).files_view(), t@, path@),
            ),
    {
        proof {
            crate::files::lemma_apply_single(self.files@, RegistryOp::Host(pushed_entry(t@, path@)));
        }
        self.files.commit_store(t, path);
    }
}

/// In a well-formed daemon, and so after any sequence of commands from a new
/// one, a host id resolves to at most one live session.
pub proof fn lemma_server_resolution_unique(sv: Server, key: Seq<char>, i: int, j: int)
    requires
        sv.wf(),
        resolves(sv.sessions_view(), key, i),
        resolves(sv.sessions_view(), key, j),
    ensures
        i == j,
{
    crate::sessions::lemma_resolution_unique(sv.sessions_view(), key, i, j);
}

/// Starting (or stopping) twice leaves `active` as starting (or stopping)
/// once does.
pub proof fn lemma_switch_idempotent(active: bool, c: Command)
    requires
        c is Start || c is Stop,
    ensures
        active_after(active_after(active, c), c) == active_after(active, c),
{
}

} // verus!
