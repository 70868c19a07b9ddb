use backit::daemon::{Action, Answer, Config, Handshake, Peer, Request, Server};
use backit::files::PathKind;
use backit::ipc::{
    AnyHost, Backit, Command, Credentials, FileTarget, HostId, ReceivePacket, ServerError,
    SendPacket, ServerInfo, ServerReply, Target,
};

fn s(x: &str) -> String {
    x.to_string()
}

fn cmd(c: Command) -> Backit {
    Backit::new(c, false, false)
}

fn server() -> Server {
    Server::new(Config { retain_adhoc_sessions: false })
}

fn connect(server: &mut Server, id: &str, nickname: Option<&str>) {
    let creds = Credentials::new_key(s("key"));
    let c = Command::Connect { connection_type: creds.clone(), nickname: nickname.map(s) };
    assert_eq!(server.handle_user_command(&cmd(c)), Action::Dial);
    let reply = server.finish_connect(
        &creds,
        nickname.map(s),
        Ok(Handshake { id: s(id), name: None }),
    );
    assert_eq!(reply, ServerReply::Connected(nickname.map(s)));
}

#[test]
fn constructors_build_their_variants() {
    assert_eq!(Credentials::new_key(s("k")), Credentials::Key(s("k")));
    assert_eq!(Credentials::new_url(s("u")), Credentials::Url(s("u")));
    assert_eq!(
        Credentials::new_password(s("i"), s("p")),
        Credentials::Password { id: s("i"), password: s("p") }
    );
    assert_eq!(HostId::new_nickname(s("n")).text(), "n");
    assert_eq!(HostId::new_id(s("i")).text(), "i");
    assert_eq!(
        FileTarget::new_file(s("/p"), None),
        FileTarget::File { path: s("/p"), nickname: None }
    );
    assert_eq!(FileTarget::new_dir(s("/d")), FileTarget::Dir { path: s("/d") });
    assert_eq!(Target::new_nickname(s("n")), Target::Nickname(s("n")));
    assert_eq!(Target::new_tags(vec![s("t")]), Target::Tags(vec![s("t")]));
    assert_eq!(
        AnyHost::new_host_id(HostId::new_id(s("i"))),
        AnyHost::HostId(HostId::new_id(s("i")))
    );
    assert_eq!(
        AnyHost::new_credentials(Credentials::Key(s("k"))),
        AnyHost::Credentials(Credentials::Key(s("k")))
    );
    let b = Backit::new(Command::Start, true, true);
    assert!(b.no_confirm());
    assert!(b.json());
    assert_eq!(b.command(), &Command::Start);
    let info = ServerInfo::new(true, 3);
    assert!(info.active());
    assert_eq!(info.file_count(), 3);
}

#[test]
fn new_server_is_inactive_and_empty() {
    let sv = server();
    let info = sv.server_info();
    assert!(!info.active());
    assert_eq!(info.file_count(), 0);
    assert_eq!(sv.sessions().len(), 0);
}

#[test]
fn start_twice_is_active_with_two_replies() {
    let mut sv = server();
    assert_eq!(sv.handle_user_command(&cmd(Command::Start)), Action::Reply(ServerReply::Started));
    assert_eq!(sv.handle_user_command(&cmd(Command::Start)), Action::Reply(ServerReply::Started));
    assert!(sv.server_info().active());
}

#[test]
fn stop_twice_is_inactive_with_two_replies() {
    let mut sv = server();
    sv.handle_user_command(&cmd(Command::Start));
    assert_eq!(sv.handle_user_command(&cmd(Command::Stop)), Action::Reply(ServerReply::Stopped));
    assert_eq!(sv.handle_user_command(&cmd(Command::Stop)), Action::Reply(ServerReply::Stopped));
    assert!(!sv.server_info().active());
}

#[test]
fn stop_keeps_registries() {
    let mut sv = server();
    sv.finish_host(&FileTarget::new_file(s("/a"), None), &vec![], PathKind::File);
    connect(&mut sv, "peer", Some("p"));
    sv.handle_user_command(&cmd(Command::Stop));
    assert_eq!(sv.server_info().file_count(), 1);
    assert_eq!(sv.sessions().len(), 1);
}

#[test]
fn status_without_host_reports_locally() {
    let mut sv = server();
    sv.handle_user_command(&cmd(Command::Start));
    sv.finish_host(&FileTarget::new_file(s("/a"), None), &vec![], PathKind::File);
    let r = sv.handle_user_command(&cmd(Command::ServerStatus(None)));
    assert_eq!(r, Action::Reply(ServerReply::Info(ServerInfo::new(true, 1))));
}

#[test]
fn reload_swaps_config_or_keeps_it() {
    let mut sv = server();
    assert_eq!(sv.handle_user_command(&cmd(Command::Reload)), Action::LoadConfig);
    let r = sv.finish_reload(Ok(Config { retain_adhoc_sessions: true }));
    assert_eq!(r, ServerReply::Reloaded);
    assert!(sv.config().retain_adhoc_sessions);
    let r = sv.finish_reload(Err(ServerError::ConfigError));
    assert_eq!(r, ServerReply::Error(ServerError::ConfigError));
    assert!(sv.config().retain_adhoc_sessions);
}

#[test]
fn host_command_probes_then_hosts() {
    let mut sv = server();
    let target = FileTarget::new_file(s("/tmp/a.txt"), Some(s("a")));
    let c = Command::Host { target: target.clone(), tags: vec![s("docs")] };
    assert_eq!(sv.handle_user_command(&cmd(c)), Action::Probe);
    let r = sv.finish_host(&target, &vec![s("docs")], PathKind::File);
    assert_eq!(r, ServerReply::HostFile(target));
    assert_eq!(sv.server_info().file_count(), 1);
}

#[test]
fn host_missing_path_replies_path_not_found() {
    let mut sv = server();
    let r = sv.finish_host(&FileTarget::new_file(s("/none"), None), &vec![], PathKind::Missing);
    assert_eq!(r, ServerReply::Error(ServerError::PathNotFound));
    assert_eq!(sv.server_info().file_count(), 0);
}

#[test]
fn host_dir_on_file_replies_not_a_directory() {
    let mut sv = server();
    let r = sv.finish_host(&FileTarget::new_dir(s("/f")), &vec![], PathKind::File);
    assert_eq!(r, ServerReply::Error(ServerError::NotADirectory));
}

#[test]
fn unhost_removes_each_target() {
    let mut sv = server();
    sv.finish_host(&FileTarget::new_file(s("/a"), Some(s("a"))), &vec![], PathKind::File);
    sv.finish_host(&FileTarget::new_file(s("/b"), None), &vec![s("t")], PathKind::File);
    sv.finish_host(&FileTarget::new_file(s("/c"), None), &vec![], PathKind::File);
    let c = Command::Unhost(vec![Target::new_nickname(s("a")), Target::new_tags(vec![s("t")])]);
    assert_eq!(sv.handle_user_command(&cmd(c)), Action::Reply(ServerReply::UnHostFile));
    assert_eq!(sv.server_info().file_count(), 1);
    assert_eq!(sv.files().entry(0).path(), "/c");
}

#[test]
fn connect_unreachable_fails_without_session() {
    let mut sv = server();
    let creds = Credentials::new_key(s("k1"));
    let c = Command::Connect { connection_type: creds.clone(), nickname: None };
    assert_eq!(sv.handle_user_command(&cmd(c)), Action::Dial);
    let r = sv.finish_connect(&creds, None, Err(ServerError::AuthFailed));
    assert_eq!(r, ServerReply::Error(ServerError::AuthFailed));
    assert_eq!(sv.sessions().len(), 0);
    let r = sv.finish_connect(&creds, None, Err(ServerError::Timeout));
    assert_eq!(r, ServerReply::Error(ServerError::Timeout));
    assert_eq!(sv.sessions().len(), 0);
}

#[test]
fn connect_name_priority() {
    let mut sv = server();
    let pw = Credentials::new_password(s("pwid"), s("secret"));
    let r = sv.finish_connect(&pw, None, Ok(Handshake { id: s("1"), name: None }));
    assert_eq!(r, ServerReply::Connected(Some(s("pwid"))));
    let r = sv.finish_connect(&pw, None, Ok(Handshake { id: s("2"), name: Some(s("adv")) }));
    assert_eq!(r, ServerReply::Connected(Some(s("adv"))));
    let r = sv.finish_connect(
        &pw,
        Some(s("mine")),
        Ok(Handshake { id: s("3"), name: Some(s("adv2")) }),
    );
    assert_eq!(r, ServerReply::Connected(Some(s("mine"))));
    let key = Credentials::new_key(s("k"));
    let r = sv.finish_connect(&key, None, Ok(Handshake { id: s("4"), name: None }));
    assert_eq!(r, ServerReply::Connected(None));
    assert_eq!(sv.sessions().len(), 4);
}

#[test]
fn connect_duplicate_id_is_refused() {
    let mut sv = server();
    connect(&mut sv, "same", None);
    let key = Credentials::new_key(s("k"));
    let r = sv.finish_connect(&key, None, Ok(Handshake { id: s("same"), name: None }));
    assert_eq!(r, ServerReply::Error(ServerError::DuplicateId));
    assert_eq!(sv.sessions().len(), 1);
}

#[test]
fn disconnect_unknown_host_not_found() {
    let mut sv = server();
    connect(&mut sv, "known", Some("k"));
    let r = sv.handle_user_command(&cmd(Command::Disconnect(HostId::new_id(s("unknown")))));
    assert_eq!(r, Action::Reply(ServerReply::Error(ServerError::HostNotFound)));
    assert_eq!(sv.sessions().len(), 1);
    assert_eq!(sv.sessions().get(0).id(), "known");
}

#[test]
fn disconnect_known_host_removes_session() {
    let mut sv = server();
    connect(&mut sv, "known", Some("k"));
    let r = sv.handle_user_command(&cmd(Command::Disconnect(HostId::new_nickname(s("k")))));
    assert_eq!(r, Action::Reply(ServerReply::Disconnect));
    assert_eq!(sv.sessions().len(), 0);
}

#[test]
fn fetch_by_tags_from_peer_returns_hosted_bytes() {
    // the peer hosts the file
    let mut peer = server();
    peer.finish_host(
        &FileTarget::new_file(s("/tmp/a.txt"), Some(s("a"))),
        &vec![s("docs")],
        PathKind::File,
    );
    // this daemon holds a session with the peer, nicknamed "a"
    let mut local = server();
    connect(&mut local, "peer-id", Some("a"));
    let target = Target::new_tags(vec![s("docs")]);
    let c = Command::Fetch { host: AnyHost::new_host_id(HostId::new_nickname(s("a"))), target: target.clone() };
    let action = local.handle_user_command(&cmd(c));
    assert_eq!(action, Action::Send(Peer::Session(s("peer-id")), Request::TargetQuery));
    // the peer resolves the target to the hosted path
    assert_eq!(peer.files().fetch_path(&target), Some(s("/tmp/a.txt")));
    let bytes = b"contents of a".to_vec();
    let r = local.finish_request(None, Ok(ReceivePacket::Content(bytes.clone())));
    assert_eq!(r, ServerReply::Fetched(bytes));
}

#[test]
fn fetch_from_unknown_host_not_found() {
    let mut sv = server();
    let c = Command::Fetch {
        host: AnyHost::new_host_id(HostId::new_id(s("nobody"))),
        target: Target::new_nickname(s("x")),
    };
    let r = sv.handle_user_command(&cmd(c));
    assert_eq!(r, Action::Reply(ServerReply::Error(ServerError::HostNotFound)));
}

#[test]
fn fetch_with_credentials_dials() {
    let mut sv = server();
    let c = Command::Fetch {
        host: AnyHost::new_credentials(Credentials::new_url(s("tcp://x"))),
        target: Target::new_nickname(s("x")),
    };
    assert_eq!(sv.handle_user_command(&cmd(c)), Action::Send(Peer::Dial, Request::TargetQuery));
}

#[test]
fn push_sends_local_file() {
    let mut sv = server();
    sv.finish_host(&FileTarget::new_file(s("/data/x"), Some(s("x"))), &vec![], PathKind::File);
    connect(&mut sv, "peer", None);
    let c = Command::Push {
        host: AnyHost::new_host_id(HostId::new_id(s("peer"))),
        target: Target::new_nickname(s("x")),
    };
    let r = sv.handle_user_command(&cmd(c));
    assert_eq!(r, Action::Send(Peer::Session(s("peer")), Request::Store(s("/data/x"))));
    assert_eq!(sv.finish_request(None, Ok(ReceivePacket::Stored)), ServerReply::Backuped);
}

#[test]
fn push_without_local_match_target_not_found() {
    let mut sv = server();
    connect(&mut sv, "peer", None);
    let c = Command::Push {
        host: AnyHost::new_host_id(HostId::new_id(s("peer"))),
        target: Target::new_nickname(s("missing")),
    };
    let r = sv.handle_user_command(&cmd(c));
    assert_eq!(r, Action::Reply(ServerReply::Error(ServerError::TargetNotFound)));
}

#[test]
fn push_then_fetch_on_responder() {
    let mut peer = server();
    let t = Target::new_tags(vec![s("b")]);
    let path = peer.files().store_path(&t, s("/store/new"));
    peer.commit_store(&t, path.clone());
    assert_eq!(peer.files().fetch_path(&t), Some(path));
}

#[test]
fn request_outcomes_map_to_replies() {
    let mut sv = server();
    assert_eq!(
        sv.finish_request(None, Ok(ReceivePacket::NotFound)),
        ServerReply::Error(ServerError::TargetNotFound)
    );
    assert_eq!(
        sv.finish_request(None, Ok(ReceivePacket::Info(ServerInfo::new(false, 7)))),
        ServerReply::Info(ServerInfo::new(false, 7))
    );
    assert_eq!(
        sv.finish_request(None, Err(ServerError::TransportError)),
        ServerReply::Error(ServerError::TransportError)
    );
}

#[test]
fn adhoc_session_kept_only_when_configured() {
    let mut sv = server();
    sv.finish_request(Some(Handshake { id: s("p1"), name: None }), Ok(ReceivePacket::Stored));
    assert_eq!(sv.sessions().len(), 0);
    sv.finish_reload(Ok(Config { retain_adhoc_sessions: true }));
    sv.finish_request(Some(Handshake { id: s("p1"), name: None }), Ok(ReceivePacket::Stored));
    assert_eq!(sv.sessions().len(), 1);
}

#[test]
fn status_of_remote_host_is_sent() {
    let mut sv = server();
    connect(&mut sv, "peer", Some("p"));
    let c = Command::ServerStatus(Some(AnyHost::new_host_id(HostId::new_nickname(s("p")))));
    assert_eq!(sv.handle_user_command(&cmd(c)), Action::Send(Peer::Session(s("peer")), Request::InfoQuery));
}

#[test]
fn host_missing_dir_replies_not_a_directory() {
    let mut sv = server();
    let r = sv.finish_host(&FileTarget::new_dir(s("/no/such/dir")), &vec![], PathKind::Missing);
    assert_eq!(r, ServerReply::Error(ServerError::NotADirectory));
    assert_eq!(sv.server_info().file_count(), 0);
}

#[test]
fn answer_query_reads_first_match() {
    let mut sv = server();
    sv.finish_host(&FileTarget::new_file(s("/tmp/a.txt"), Some(s("a"))), &vec![s("docs")], PathKind::File);
    let q = SendPacket::TargetQuery(Target::new_tags(vec![s("docs")]));
    assert_eq!(sv.answer(&q, s("/fresh")), Answer::Read(s("/tmp/a.txt")));
    let miss = SendPacket::TargetQuery(Target::new_nickname(s("zzz")));
    assert_eq!(sv.answer(&miss, s("/fresh")), Answer::NotFound);
}

#[test]
fn answer_store_writes_to_match_or_fresh() {
    let mut sv = server();
    sv.finish_host(&FileTarget::new_file(s("/tmp/a.txt"), Some(s("a"))), &vec![], PathKind::File);
    let hit = SendPacket::Store { target: Target::new_nickname(s("a")), content: vec![1] };
    assert_eq!(sv.answer(&hit, s("/fresh")), Answer::Write(s("/tmp/a.txt")));
    let miss = SendPacket::Store { target: Target::new_nickname(s("b")), content: vec![1] };
    assert_eq!(sv.answer(&miss, s("/fresh")), Answer::Write(s("/fresh")));
}

#[test]
fn answer_info_reports_state() {
    let mut sv = server();
    sv.handle_user_command(&cmd(Command::Start));
    assert_eq!(sv.answer(&SendPacket::InfoQuery, s("/f")), Answer::Info(ServerInfo::new(true, 0)));
}
