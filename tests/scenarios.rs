use miniredis::connection::FrameBuffer;
use miniredis::environment::{Environment, Role};
use miniredis::handshake::{Handshake, HandshakeState, Progress};
use miniredis::resp2::{Link, Reply};

fn run(env: &mut Environment, link: Link, bytes: &[u8], now: u64) -> Vec<Reply> {
    let mut buf = FrameBuffer::new();
    buf.push(bytes);
    let mut replies = Vec::new();
    while let Some(req) = buf.next_request().expect("well-formed input") {
        replies.push(req.reflect(env, link, now).expect("command runs"));
    }
    assert_eq!(buf.len(), 0);
    replies
}

fn one(env: &mut Environment, bytes: &[u8], now: u64) -> Vec<u8> {
    let replies = run(env, Link::Client, bytes, now);
    assert_eq!(replies.len(), 1);
    replies.into_iter().next().unwrap().response
}

#[test]
fn ping_answers_pong() {
    let mut env = Environment::new(Role::Master, 6379);
    assert_eq!(one(&mut env, b"*1\r\n$4\r\nPING\r\n", 0), b"+PONG\r\n".to_vec());
}

#[test]
fn echo_answers_bulk_string() {
    let mut env = Environment::new(Role::Master, 6379);
    assert_eq!(one(&mut env, b"*2\r\n$4\r\nECHO\r\n$5\r\nhello\r\n", 0), b"$5\r\nhello\r\n".to_vec());
}

#[test]
fn set_then_get() {
    let mut env = Environment::new(Role::Master, 6379);
    let replies = run(
        &mut env,
        Link::Client,
        b"*3\r\n$3\r\nSET\r\n$3\r\nfoo\r\n$3\r\nbar\r\n*2\r\n$3\r\nGET\r\n$3\r\nfoo\r\n",
        1_000,
    );
    assert_eq!(replies.len(), 2);
    assert_eq!(replies[0].response, b"+OK\r\n".to_vec());
    assert!(replies[0].propagate);
    assert_eq!(replies[1].response, b"$3\r\nbar\r\n".to_vec());
}

#[test]
fn set_px_expires() {
    let mut env = Environment::new(Role::Master, 6379);
    let set = one(&mut env, b"*5\r\n$3\r\nSET\r\n$1\r\nk\r\n$1\r\nv\r\n$2\r\nPX\r\n$3\r\n100\r\n", 5_000);
    assert_eq!(set, b"+OK\r\n".to_vec());
    let get = one(&mut env, b"*2\r\n$3\r\nGET\r\n$1\r\nk\r\n", 5_200);
    assert_eq!(get, b"$-1\r\n".to_vec());
    assert!(env.get(b"k", 5_200).is_none());
}

#[test]
fn info_replication_on_primary() {
    let mut env = Environment::new(Role::Master, 6379);
    let id = "X".repeat(40);
    env.set_master_replid(id.clone());
    let body = format!("role:master\r\nmaster_replid:{}\r\nmaster_repl_offset:0", id);
    let expected = format!("${}\r\n{}\r\n", body.len(), body);
    assert_eq!(one(&mut env, b"*2\r\n$4\r\nINFO\r\n$11\r\nreplication\r\n", 0), expected.into_bytes());
}

/// Runs the handshake between a replica and a primary in memory, then a
/// client's SET on the primary and its replay on the replica.
#[test]
fn replica_handshake_and_propagation() {
    let mut primary = Environment::new(Role::Master, 6379);
    let primary_id = primary.master_replid().to_string();
    let mut replica = Environment::replica_of(6380, "127.0.0.1".to_string(), 6379);
    let mut hs = Handshake::new(6380);
    let replica_conn: u64 = 7;

    let mut to_primary = FrameBuffer::new();
    let mut received: Vec<Vec<u8>> = Vec::new();
    let mut outgoing = hs.start();
    let mut incoming: Vec<u8> = Vec::new();
    let mut registered = false;
    loop {
        if !outgoing.is_empty() {
            to_primary.push(&outgoing);
            while let Some(req) = to_primary.next_request().unwrap() {
                received.push(req.literal().clone());
                let reply = req.reflect(&mut primary, Link::Client, 0).unwrap();
                incoming.extend_from_slice(&reply.response);
                if reply.register_replica {
                    primary.add_slave(replica_conn, 0);
                    registered = true;
                }
            }
        }
        match hs.on_input(&mut replica, &incoming) {
            Progress::Continue { consumed, send } => {
                incoming.drain(..consumed);
                outgoing = send;
            }
            Progress::Live { consumed } => {
                incoming.drain(..consumed);
                break;
            }
            Progress::NeedMore => panic!("the primary answered every step in full"),
            Progress::Failed => panic!("handshake failed"),
        }
    }
    assert!(registered);
    assert_eq!(hs.state(), HandshakeState::Live);
    assert!(incoming.is_empty());
    assert_eq!(
        received,
        vec![
            b"*1\r\n$4\r\nPING\r\n".to_vec(),
            b"*3\r\n$8\r\nREPLCONF\r\n$14\r\nlistening-port\r\n$4\r\n6380\r\n".to_vec(),
            b"*3\r\n$8\r\nREPLCONF\r\n$4\r\ncapa\r\n$6\r\npsync2\r\n".to_vec(),
            b"*3\r\n$5\r\nPSYNC\r\n$1\r\n?\r\n$2\r\n-1\r\n".to_vec(),
        ]
    );
    assert_eq!(replica.master_replid(), primary_id);
    assert_eq!(replica.master_repl_offset(), 0);
    assert_eq!(primary.slaves().len(), 1);

    // A client's SET on the primary goes to the replica byte for byte.
    let set = b"*3\r\n$3\r\nSET\r\n$1\r\na\r\n$1\r\n1\r\n";
    let mut client = FrameBuffer::new();
    client.push(set);
    let req = client.next_request().unwrap().unwrap();
    let reply = req.reflect(&mut primary, Link::Client, 0).unwrap();
    assert_eq!(reply.response, b"+OK\r\n".to_vec());
    assert!(reply.propagate);
    assert_eq!(req.propagate(&primary).unwrap(), vec![replica_conn]);
    assert_eq!(req.literal().as_slice(), &set[..]);

    let applied = run(&mut replica, Link::Primary, req.literal(), 0);
    assert_eq!(applied.len(), 1);
    assert!(applied[0].response.is_empty());
    assert!(!applied[0].propagate);
    assert_eq!(one(&mut replica, b"*2\r\n$3\r\nGET\r\n$1\r\na\r\n", 0), b"$1\r\n1\r\n".to_vec());
}

#[test]
fn two_replicas_receive_the_same_writes_in_order() {
    let mut primary = Environment::new(Role::Master, 6379);
    primary.add_slave(1, 0);
    primary.add_slave(2, 0);
    let sent: Vec<&[u8]> = vec![
        b"*3\r\n$3\r\nSET\r\n$1\r\na\r\n$1\r\n1\r\n",
        b"*2\r\n$3\r\nGET\r\n$1\r\na\r\n",
        b"*5\r\n$3\r\nset\r\n$1\r\nb\r\n$2\r\nxy\r\n$2\r\npx\r\n$4\r\n9000\r\n",
        b"*3\r\n$3\r\nSET\r\n$1\r\na\r\n$1\r\n2\r\n",
    ];
    let mut streams: Vec<Vec<u8>> = vec![Vec::new(), Vec::new()];
    let mut client = FrameBuffer::new();
    for bytes in &sent {
        client.push(bytes);
    }
    while let Some(req) = client.next_request().unwrap() {
        let reply = req.reflect(&mut primary, Link::Client, 10).unwrap();
        if reply.propagate {
            for id in req.propagate(&primary).unwrap() {
                streams[(id - 1) as usize].extend_from_slice(req.literal());
            }
        }
    }
    let writes: Vec<u8> = [sent[0], sent[2], sent[3]].concat();
    assert_eq!(streams[0], writes);
    assert_eq!(streams[1], writes);
    for stream in &streams {
        let mut replica = Environment::new(Role::Slave, 6380);
        let applied = run(&mut replica, Link::Primary, stream, 10);
        assert_eq!(applied.len(), 3);
        assert_eq!(replica.get(b"a", 10), Some(b"2".to_vec()));
        assert_eq!(replica.get(b"b", 10), Some(b"xy".to_vec()));
        assert_eq!(replica.get(b"b", 9010), None);
    }
}
