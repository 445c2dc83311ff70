use smoothie::hypervisor::cache::{
    cache_dir, download_ranges, eviction_order, file_extension, object_key, tar_path, tmp_path, CachedArchive,
    CHUNK_SIZE,
};
use smoothie::hypervisor::config::ResourceLimits;
use smoothie::hypervisor::container::{
    acquired_container, check_command, container_error_status, container_listing, inject_argv, run_port,
    ContainerError, IdlePool, InjectedContainer, InjectedListing, RunningListing,
};
use smoothie::hypervisor::defaults;
use smoothie::hypervisor::docker::{docker_candidate_sockets, frame_stream, parse_unix_socket, LogStream};
use smoothie::hypervisor::globals::console_socket_path;
use smoothie::hypervisor::image::{alpine_arch, alpine_archive_path, alpine_download_url, base_rootfs_path, images_dir};
use smoothie::hypervisor::instant_box::{
    create_box_response, shell_step, socket_step, CloseKind, ShellEvent, ShellStep, SocketEvent, SocketStep,
};
use smoothie::hypervisor::log::{log_stream_key, route_output, LineBuffer, OutputKind, OutputRoute};
use smoothie::hypervisor::port::{candidate_port, first_offset, port_range_len, PortError};

#[test]
fn maps_container_errors_to_specific_http_statuses() {
    assert_eq!(container_error_status(&ContainerError::Package("invalid tar".into())), 400);
    assert_eq!(container_error_status(&ContainerError::EmptyCommand), 400);
    assert_eq!(container_error_status(&ContainerError::IdlePoolExhausted), 503);
    assert_eq!(container_error_status(&ContainerError::Io("internal".into())), 500);
}

#[test]
fn rejects_an_inverted_range() {
    assert!(matches!(port_range_len(2, 1), Err(PortError::InvalidRange)));
}

#[test]
fn container_errors_explain_themselves() {
    assert_eq!(ContainerError::EmptyCommand.to_string(), "a container needs at least one argument to run");
    assert_eq!(ContainerError::Package("missing".into()).to_string(), "failed to load package: missing");
    assert_eq!(ContainerError::Io("reset".into()).to_string(), "network I/O failed: reset");
    assert_eq!(ContainerError::IdlePoolExhausted.to_string(), "no idle containers are available");
    assert_eq!(ContainerError::Engine("gone".into()).to_string(), "container engine request failed: gone");
    assert_eq!(container_error_status(&ContainerError::Engine("gone".into())), 500);
}

#[test]
fn injection_needs_a_command_and_an_idle_container() {
    assert!(matches!(check_command(&vec![]), Err(ContainerError::EmptyCommand)));
    assert!(check_command(&vec!["./main".into()]).is_ok());
    assert!(matches!(InjectedContainer::new("c1".into(), vec![]), Err(ContainerError::EmptyCommand)));
    let injected = InjectedContainer::new("c1".into(), vec!["./main".into()]).ok().unwrap();
    assert_eq!(injected.id(), "c1");
    assert_eq!(injected.argv(), &vec!["./main".to_string()]);
    assert!(matches!(acquired_container(None), Err(ContainerError::IdlePoolExhausted)));
    assert_eq!(acquired_container(Some("c2".into())).ok().unwrap(), "c2");
    assert_eq!(inject_argv(None), vec!["./main"]);
    assert_eq!(inject_argv(Some(vec!["sh".into()])), vec!["sh"]);
    assert_eq!(run_port(None), 8080);
    assert_eq!(run_port(Some(3000)), 3000);
}

#[test]
fn the_idle_pool_is_first_in_first_out() {
    let mut pool = IdlePool::new(3, vec!["a".into(), "b".into()]);
    assert!(pool.needs_replenish());
    pool.add("c".into());
    assert!(!pool.needs_replenish());
    assert_eq!(pool.list_ids(), vec!["a", "b", "c"]);
    assert_eq!(pool.acquire().as_deref(), Some("a"));
    assert_eq!(pool.acquire().as_deref(), Some("b"));
    assert_eq!(pool.list_ids(), vec!["c"]);
    assert_eq!(pool.acquire().as_deref(), Some("c"));
    assert_eq!(pool.acquire(), None);
}

#[test]
fn container_listings_put_idle_then_injected_then_running() {
    let list = container_listing(
        vec!["i1".into()],
        vec![InjectedListing { id: "j1".into(), package_id: "p1".into() }],
        vec![RunningListing { id: "r1".into(), package_id: "p2".into(), container_port: 8080, host_port: 31000 }],
    );
    assert_eq!(list.len(), 3);
    assert_eq!((list[0].id.as_str(), list[0].idle, list[0].package.is_none()), ("i1", Some(true), true));
    assert_eq!((list[1].id.as_str(), list[1].package.as_deref(), list[1].idle), ("j1", Some("p1"), None));
    assert_eq!((list[2].c_port, list[2].h_port), (Some(8080), Some(31000)));
}

#[test]
fn configuration_defaults() {
    assert_eq!(defaults::idle_containers(), 5);
    assert_eq!(defaults::max_hybernated_containers(), 20);
    assert_eq!(defaults::snapshots_storage_quota(), 209_715_200);
    assert_eq!(defaults::package_cache_quota(), 524_288_000);
    assert_eq!(defaults::ram(), 26_214_400);
    assert_eq!(defaults::cpu_p(), 50_000);
    assert_eq!(defaults::cpu_q(), 12_500);
    assert_eq!(defaults::image(), "docker.io/library/alpine:3.24");
}

#[test]
fn limits_that_do_not_fit_are_not_set() {
    let limits = ResourceLimits::default().to_engine();
    assert_eq!(limits.memory_bytes, Some(26_214_400));
    assert_eq!(limits.memory_swap_bytes, Some(26_214_400));
    assert_eq!(limits.cpu_period_us, Some(50_000));
    assert_eq!(limits.cpu_quota_us, Some(12_500));
    assert_eq!(limits.pids, None);
    let huge = ResourceLimits { ram: u64::MAX, cpu_p: i64::MAX as u64, cpu_q: 0 }.to_engine();
    assert_eq!(huge.memory_bytes, None);
    assert_eq!(huge.cpu_period_us, Some(i64::MAX));
    assert_eq!(huge.cpu_quota_us, Some(0));
}

#[test]
fn output_is_cut_into_lines() {
    let mut buffer = LineBuffer::new("info", "stdout");
    assert_eq!(buffer.push(b"hello\r\nwor"), vec!["hello"]);
    assert_eq!(buffer.push(b"ld\n\n\r\nlast"), vec!["world"]);
    assert_eq!(buffer.flush().as_deref(), Some("last"));
    assert_eq!(buffer.flush(), None);
    assert_eq!(buffer.push(b"a\xffb\n"), vec!["a\u{fffd}b"]);
    assert_eq!(buffer.payload(1700, "hi"), "1700$info$stdout: hi");
    assert_eq!(log_stream_key("c1"), "logs:c1");
}

#[test]
fn chunk_boundaries_do_not_change_lines() {
    let text = "one\ntwo\r\n\nthree\nfour";
    let mut whole = LineBuffer::new("info", "stdout");
    let all = whole.push_text(text);
    for cut in 0..text.len() {
        let mut split = LineBuffer::new("info", "stdout");
        let mut lines = split.push_text(&text[..cut]);
        lines.extend(split.push_text(&text[cut..]));
        assert_eq!(lines, all);
        assert_eq!(split.flush(), Some("four".to_string()));
    }
    assert_eq!(all, vec!["one", "two", "three"]);
}

#[test]
fn output_kinds_are_routed() {
    assert!(matches!(route_output(&OutputKind::StdOut), OutputRoute::Stdout));
    assert!(matches!(route_output(&OutputKind::Console), OutputRoute::Stdout));
    assert!(matches!(route_output(&OutputKind::StdErr), OutputRoute::Stderr));
    assert!(matches!(route_output(&OutputKind::StdIn), OutputRoute::Dropped));
    assert_eq!(frame_stream(&OutputKind::Console), LogStream::Stdout);
    assert_eq!(frame_stream(&OutputKind::StdIn), LogStream::Stdin);
}

#[test]
fn port_candidates_cover_the_range_once() {
    let start = 55000u16;
    let end = 55010u16;
    let len = port_range_len(start, end).ok().unwrap();
    assert_eq!(len, 11);
    let first = first_offset(25, len);
    assert_eq!(first, 3);
    let ports: Vec<u16> = (0..len).map(|o| candidate_port(start, end, first, o)).collect();
    assert_eq!(ports[0], 55003);
    assert_eq!(ports[7], 55010);
    assert_eq!(ports[8], 55000);
    let mut sorted = ports.clone();
    sorted.sort();
    assert_eq!(sorted, (55000..=55010).collect::<Vec<u16>>());
    assert_eq!(
        PortError::Exhausted { start: 1, end: 2 }.to_string(),
        "no free TCP port in range 1..=2"
    );
    assert_eq!(PortError::InvalidRange.to_string(), "port range start must not exceed its end");
}

#[test]
fn image_and_cache_paths() {
    assert_eq!(images_dir("/opt/hv/hdata"), "/opt/hv/hdata/images");
    assert_eq!(base_rootfs_path("/opt/hv/hdata/"), "/opt/hv/hdata/base_rootfs");
    assert_eq!(
        alpine_archive_path("/opt/hv/hdata", "x86_64"),
        "/opt/hv/hdata/images/alpine-minirootfs-3.24.1-x86_64.tar.gz"
    );
    assert_eq!(
        alpine_download_url("aarch64"),
        "https://dl-cdn.alpinelinux.org/alpine/v3.24/releases/aarch64/alpine-minirootfs-3.24.1-aarch64.tar.gz"
    );
    assert_eq!(alpine_arch("x86_64"), Some("x86_64"));
    assert_eq!(alpine_arch("riscv64"), None);
    assert_eq!(console_socket_path("/run/sockets", "c1"), "/run/sockets/c1.sock");
    assert_eq!(cache_dir("/opt/hv"), "/opt/hv/hdata/package_cache");
    assert_eq!(tar_path("/c", "p1"), "/c/p1.tar");
    assert_eq!(tmp_path("/c", "p1"), "/c/p1.tar.tmp");
    assert_eq!(object_key("p1"), "p1.tar");
    assert_eq!(file_extension("p1.tar").as_deref(), Some("tar"));
    assert_eq!(file_extension("p1.tar.tmp").as_deref(), Some("tmp"));
    assert_eq!(file_extension(".hidden"), None);
    assert_eq!(file_extension("noext"), None);
    assert_eq!(file_extension(".."), None);
    assert_eq!(file_extension("a."), Some(String::new()));
}

#[test]
fn downloads_are_cut_into_chunks() {
    assert!(download_ranges(0).is_empty());
    assert_eq!(download_ranges(10), vec![(0, 9)]);
    let total = 2 * CHUNK_SIZE + 5;
    assert_eq!(
        download_ranges(total),
        vec![(0, CHUNK_SIZE - 1), (CHUNK_SIZE, 2 * CHUNK_SIZE - 1), (2 * CHUNK_SIZE, total - 1)]
    );
}

#[test]
fn eviction_is_oldest_first_and_spares_the_new_archive() {
    let archive = |path: &str, modified: u128| CachedArchive { path: path.into(), size: 1, modified };
    let order = eviction_order(
        vec![archive("/c/b.tar", 20), archive("/c/new.tar", 1), archive("/c/a.tar", 10), archive("/c/a2.tar", 10)],
        "/c/new.tar",
    );
    let paths: Vec<&str> = order.iter().map(|a| a.path.as_str()).collect();
    assert_eq!(paths, vec!["/c/a.tar", "/c/a2.tar", "/c/b.tar"]);
}

#[test]
fn docker_sockets() {
    assert_eq!(parse_unix_socket(" unix:///var/run/docker.sock "), Some("/var/run/docker.sock".to_string()));
    assert_eq!(parse_unix_socket("/run/podman/podman.sock"), Some("/run/podman/podman.sock".to_string()));
    assert_eq!(parse_unix_socket("tcp://127.0.0.1:2375"), None);
    assert_eq!(docker_candidate_sockets()[0], "/var/run/docker.sock");
    assert_eq!(docker_candidate_sockets().len(), 4);
}

#[test]
fn boxes_answer_with_their_websocket() {
    let r = create_box_response("b1".into(), "https", "hv.example");
    assert_eq!(r.ws_endpoint, "wss://hv.example/box/b1/ws");
    assert_eq!(r.expires_in_seconds, 14400);
    let r = create_box_response("b2".into(), "http", "localhost:3100");
    assert_eq!(r.ws_endpoint, "ws://localhost:3100/box/b2/ws");
}

#[test]
fn box_relays_decide_on_each_event() {
    assert!(matches!(shell_step(ShellEvent::Output(vec![1])), ShellStep::Forward(b) if b == vec![1]));
    assert!(matches!(shell_step(ShellEvent::Other), ShellStep::Ignore));
    assert!(matches!(shell_step(ShellEvent::Expired), ShellStep::Stop));
    assert!(matches!(socket_step(SocketEvent::Text("ls".into())), SocketStep::SendText(t) if t == "ls"));
    assert!(matches!(socket_step(SocketEvent::Ping(vec![9])), SocketStep::SendPong(b) if b == vec![9]));
    assert!(matches!(socket_step(SocketEvent::Close), SocketStep::EchoClose));
    assert!(matches!(
        socket_step(SocketEvent::Continuation),
        SocketStep::Close(CloseKind::Unsupported, d) if d == "fragmented messages are not supported"
    ));
    assert!(matches!(
        socket_step(SocketEvent::OutputLagged),
        SocketStep::Close(CloseKind::Error, d) if d == "client could not keep up with shell output"
    ));
    assert!(matches!(
        socket_step(SocketEvent::ClosedChanged { ok: true, closed: true }),
        SocketStep::Close(CloseKind::Normal, d) if d == "shell terminated"
    ));
    assert!(matches!(socket_step(SocketEvent::ClosedChanged { ok: true, closed: false }), SocketStep::Continue));
    assert!(matches!(socket_step(SocketEvent::BinaryFailed), SocketStep::Return));
    assert!(matches!(socket_step(SocketEvent::IncomingEnded), SocketStep::Return));
}

use smoothie::hypervisor::cache::use_ranged_download;
use smoothie::hypervisor::container::select_tarball;

#[test]
fn downloads_and_tarballs_are_chosen() {
    assert!(use_ranged_download(true, Some(CHUNK_SIZE + 1)));
    assert!(!use_ranged_download(true, Some(CHUNK_SIZE)));
    assert!(!use_ranged_download(false, Some(CHUNK_SIZE + 1)));
    assert!(!use_ranged_download(true, None));
    assert_eq!(select_tarball("/c/p.tar".into(), true).ok().unwrap().path, "/c/p.tar");
    assert!(matches!(
        select_tarball("/c".into(), false),
        Err(ContainerError::Package(m)) if m == "tarball path is not a file"
    ));
}

use smoothie::hypervisor::container::{after_upload, UploadOutcome};
use smoothie::hypervisor::engine::{removal_outcome, EngineFailure};

#[test]
fn removing_an_unknown_container_counts_as_removed() {
    assert!(removal_outcome(Err(EngineFailure::Status { code: 404, message: "no such container".into() })).is_ok());
    assert!(removal_outcome(Ok(())).is_ok());
    match removal_outcome(Err(EngineFailure::Status { code: 500, message: "boom".into() })) {
        Err(EngineFailure::Status { code, message }) => assert_eq!((code, message.as_str()), (500, "boom")),
        _ => panic!("a server error stands"),
    }
    assert!(matches!(removal_outcome(Err(EngineFailure::Other("io".into()))), Err(EngineFailure::Other(m)) if m == "io"));
}

#[test]
fn failed_uploads_discard_the_container() {
    match after_upload("c1".into(), vec!["./main".into()], Ok(())) {
        UploadOutcome::Injected(c) => {
            assert_eq!(c.id(), "c1");
            assert_eq!(c.argv(), &vec!["./main".to_string()]);
        },
        _ => panic!("expected an injected container"),
    }
    match after_upload("c2".into(), vec!["./main".into()], Err("disk full".into())) {
        UploadOutcome::Discard { container_id, error } => {
            assert_eq!(container_id, "c2");
            assert_eq!(error.to_string(), "container engine request failed: disk full");
        },
        _ => panic!("expected the container to be discarded"),
    }
}

use smoothie::hypervisor::instant_box::{after_shell_start, ShellStart};

#[test]
fn a_box_whose_shell_fails_is_discarded() {
    assert!(matches!(after_shell_start("b1".into(), Ok(())), ShellStart::Session(id) if id == "b1"));
    match after_shell_start("b2".into(), Err("exec failed".into())) {
        ShellStart::Discard { container_id, error } => assert_eq!((container_id.as_str(), error.as_str()), ("b2", "exec failed")),
        _ => panic!("expected the box container to be discarded"),
    }
}
