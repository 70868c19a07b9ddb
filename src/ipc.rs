//! The values exchanged between the control plane and the daemon, and
//! between two daemons.
use vstd::prelude::*;

verus! {

/// A 128-bit identifier from the uuid crate, carried through unchanged.
#[verifier::external_type_specification]
#[verifier::external_body]
pub struct ExUuid(uuid::Uuid);

/// The name a daemon goes by on the overlay network.
#[derive(Debug)]
pub struct DeviceName {
    pub name: Option<String>,
    pub id: uuid::Uuid,
}

/// What a daemon presents to authenticate to another one.
#[derive(Debug, Clone, PartialEq, Eq, Hash, PartialOrd, Ord)]
pub enum Credentials {
    /// a single use key used to identify and connect to a remote client
    Key(String),
    /// an address hint that bypasses discovery
    Url(String),
    /// an id and a shared secret of a previously known host
    Password { id: String, password: String },
}

impl Credentials {
    pub fn new_key(key: String) -> (r: Self)
        ensures
            r == Credentials::Key(key),
    {
        Credentials::Key(key)
    }

    pub fn new_url(url: String) -> (r: Self)
        ensures
            r == Credentials::Url(url),
    {
        Credentials::Url(url)
    }

    pub fn new_password(id: String, password: String) -> (r: Self)
        ensures
            r == (Credentials::Password { id, password }),
    {
        Credentials::Password { id, password }
    }
}

/// An id for a host: either a nickname or a stable id. Both are resolved
/// against the same text.
#[derive(Debug, Clone, PartialEq, Eq, Hash, PartialOrd, Ord)]
pub struct HostId {
    nickname_or_id: String,
}

impl View for HostId {
    type V = Seq<char>;

    closed spec fn view(&self) -> Seq<char> {
        self.nickname_or_id@
    }
}

impl HostId {
    pub fn new_nickname(nickname: String) -> (r: Self)
        ensures
            r@ == nickname@,
    {
        HostId { nickname_or_id: nickname }
    }

    pub fn new_id(id: String) -> (r: Self)
        ensures
            r@ == id@,
    {
        HostId { nickname_or_id: id }
    }

    /// The text that names the host.
    pub fn text(&self) -> (r: &String)
        ensures
            r@ == self@,
    {
        &self.nickname_or_id
    }
}

/// Something this daemon is willing to serve.
#[derive(Debug, Clone, PartialEq, Eq, Hash, PartialOrd, Ord)]
pub enum FileTarget {
    File { path: String, nickname: Option<String> },
    Dir { path: String },
}

impl FileTarget {
    pub fn new_file(path: String, nickname: Option<String>) -> (r: Self)
        ensures
            r == (FileTarget::File { path, nickname }),
    {
        FileTarget::File { path, nickname }
    }

    pub fn new_dir(path: String) -> (r: Self)
        ensures
            r == (FileTarget::Dir { path }),
    {
        FileTarget::Dir { path }
    }

    /// The filesystem path the target stands for.
    pub fn path(&self) -> (r: &String)
        ensures
            r@ == self.path_view(),
    {
        match self {
            FileTarget::File { path, .. } => path,
            FileTarget::Dir { path } => path,
        }
    }

    pub fn copy(&self) -> (r: FileTarget)
        ensures
            r == *self,
    {
        match self {
            FileTarget::File { path, nickname } => {
                let nickname = match nickname {
                    Some(n) => Some(n.clone()),
                    None => None,
                };
                FileTarget::File { path: path.clone(), nickname }
            },
            FileTarget::Dir { path } => FileTarget::Dir { path: path.clone() },
        }
    }

    pub open spec fn path_view(&self) -> Seq<char> {
        match self {
            FileTarget::File { path, .. } => path@,
            FileTarget::Dir { path } => path@,
        }
    }
}

/// The view of a list of strings as a sequence of texts.
pub open spec fn texts(v: Seq<String>) -> Seq<Seq<char>> {
    v.map_values(|s: String| s@)
}

/// The view of an optional string.
pub open spec fn opt_text(o: Option<String>) -> Option<Seq<char>> {
    match o {
        Some(s) => Some(s@),
        None => None,
    }
}

/// How content is addressed on a remote daemon.
#[derive(Debug, Clone, PartialEq, Eq, Hash, PartialOrd, Ord)]
pub enum Target {
    /// exact match against a hosted entry's nickname
    Nickname(String),
    /// every listed tag must be present on the hosted entry
    Tags(Vec<String>),
}

pub enum TargetView {
    Nickname(Seq<char>),
    Tags(Seq<Seq<char>>),
}

impl View for Target {
    type V = TargetView;

    open spec fn view(&self) -> TargetView {
        match self {
            Target::Nickname(n) => TargetView::Nickname(n@),
            Target::Tags(t) => TargetView::Tags(texts(t@)),
        }
    }
}

impl Target {
    pub fn new_nickname(nickname: String) -> (r: Self)
        ensures
            r == Target::Nickname(nickname),
    {
        Target::Nickname(nickname)
    }

    pub fn new_tags(tags: Vec<String>) -> (r: Self)
        ensures
            r == Target::Tags(tags),
    {
        Target::Tags(tags)
    }
}

/// A host that is either already known by an id, or reached for the first
/// time with credentials.
#[derive(Debug, Clone, PartialEq, Eq, Hash, PartialOrd, Ord)]
pub enum AnyHost {
    HostId(HostId),
    Credentials(Credentials),
}

impl AnyHost {
    pub fn new_host_id(host_id: HostId) -> (r: Self)
        ensures
            r == AnyHost::HostId(host_id),
    {
        AnyHost::HostId(host_id)
    }

    pub fn new_credentials(credentials: Credentials) -> (r: Self)
        ensures
            r == AnyHost::Credentials(credentials),
    {
        AnyHost::Credentials(credentials)
    }
}

/// A command of the control plane.
#[derive(Debug, Clone, PartialEq, Eq, Hash, PartialOrd, Ord)]
pub enum Command {
    Start,
    Stop,
    Reload,
    /// connect to a new host and set an optional nickname
    ///
    /// priority for the name is credentials < name the peer advertises < nickname
    Connect { connection_type: Credentials, nickname: Option<String> },
    Disconnect(HostId),
    Host { target: FileTarget, tags: Vec<String> },
    Unhost(Vec<Target>),
    Fetch { host: AnyHost, target: Target },
    Push { host: AnyHost, target: Target },
    ServerStatus(Option<AnyHost>),
}

/// A command with the flags that travel with it.
#[derive(Debug, Clone, PartialEq, Eq, Hash, PartialOrd, Ord)]
pub struct Backit {
    command: Command,
    json: bool,
    no_confirm: bool,
}

impl Backit {
    pub closed spec fn command_spec(&self) -> Command {
        self.command
    }

    pub closed spec fn json_spec(&self) -> bool {
        self.json
    }

    pub closed spec fn no_confirm_spec(&self) -> bool {
        self.no_confirm
    }

    pub fn new(command: Command, json: bool, no_confirm: bool) -> (r: Self)
        ensures
            r.command_spec() == command,
            r.json_spec() == json,
            r.no_confirm_spec() == no_confirm,
    {
        Backit { command, json, no_confirm }
    }

    pub fn no_confirm(&self) -> (r: bool)
        ensures
            r == self.no_confirm_spec(),
    {
        self.no_confirm
    }

    pub fn json(&self) -> (r: bool)
        ensures
            r == self.json_spec(),
    {
        self.json
    }

    pub fn command(&self) -> (r: &Command)
        ensures
            *r == self.command_spec(),
    {
        &self.command
    }
}

/// Why a command failed.
#[derive(Debug, Clone, Copy, PartialEq, Eq, Hash)]
pub enum ServerError {
    InvalidPacket,
    NotImplemented,
    AuthFailed,
    DuplicateId,
    HostNotFound,
    PathNotFound,
    NotADirectory,
    TargetNotFound,
    Timeout,
    TransportError,
    ConfigError,
}

/// The one reply each command gets.
#[derive(Debug, Clone, PartialEq, Eq)]
pub enum ServerReply {
    Started,
    Stopped,
    Reloaded,
    Connected(Option<String>),
    Disconnect,
    HostFile(FileTarget),
    UnHostFile,
    Fetched(Vec<u8>),
    Backuped,
    Info(ServerInfo),
    Error(ServerError),
}

/// What a daemon reports about itself.
#[derive(Debug, Clone, Copy, PartialEq, Eq, Hash)]
pub struct ServerInfo {
    active: bool,
    file_count: usize,
}

impl ServerInfo {
    pub closed spec fn active_spec(&self) -> bool {
        self.active
    }

    pub closed spec fn file_count_spec(&self) -> usize {
        self.file_count
    }

    pub fn new(active: bool, file_count: usize) -> (r: Self)
        ensures
            r.active_spec() == active,
            r.file_count_spec() == file_count,
    {
        ServerInfo { active, file_count }
    }

    pub fn active(&self) -> (r: bool)
        ensures
            r == self.active_spec(),
    {
        self.active
    }

    pub fn file_count(&self) -> (r: usize)
        ensures
            r == self.file_count_spec(),
    {
        self.file_count
    }
}

/// A request one daemon sends another.
#[derive(Debug, Clone, PartialEq, Eq)]
pub enum SendPacket {
    /// the content of the first entry that matches the target
    TargetQuery(Target),
    /// store this content under the target
    Store { target: Target, content: Vec<u8> },
    /// the responder's `ServerInfo`
    InfoQuery,
}

/// The answer to a `SendPacket`.
#[derive(Debug, Clone, PartialEq, Eq)]
pub enum ReceivePacket {
    Content(Vec<u8>),
    Stored,
    NotFound,
    Info(ServerInfo),
}

} // verus!
