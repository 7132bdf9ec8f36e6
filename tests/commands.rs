use miniredis::cli::{parse_replicaof, Cli};
use miniredis::command::RespCommand;
use miniredis::connection::FrameBuffer;
use miniredis::environment::{Environment, Role};
use miniredis::info::InfoSection;
use miniredis::resp2::{Link, Resp2};
use miniredis::serialization::{Deserialize, Serialize};

fn request(bytes: &[u8]) -> Resp2 {
    let mut buf = FrameBuffer::new();
    buf.push(bytes);
    buf.next_request().unwrap().unwrap()
}

fn answer(env: &mut Environment, bytes: &[u8]) -> Vec<u8> {
    request(bytes).reflect(env, Link::Client, 0).unwrap().response
}

#[test]
fn command_names_ignore_case() {
    assert_eq!(RespCommand::from_str("ping"), RespCommand::PING);
    assert_eq!(RespCommand::from_str("Echo"), RespCommand::ECHO);
    assert_eq!(RespCommand::from_str("set"), RespCommand::SET);
    assert_eq!(RespCommand::from_str("GET"), RespCommand::GET);
    assert_eq!(RespCommand::from_str("info"), RespCommand::INFO);
    assert_eq!(RespCommand::from_str("replconf"), RespCommand::REPLCONF);
    assert_eq!(RespCommand::from_str("psync"), RespCommand::PSYNC);
    assert_eq!(RespCommand::from_str("PONG"), RespCommand::UNDEFINED);
    assert_eq!(RespCommand::from_str(""), RespCommand::UNDEFINED);
    assert_eq!(RespCommand::PSYNC.as_str(), "PSYNC");
}

#[test]
fn info_sections() {
    assert_eq!(InfoSection::parse(b"Replication"), Some(InfoSection::REPLICATION));
    assert_eq!(InfoSection::parse(b"memory"), None);
    assert_eq!(InfoSection::from_str("REPLICATION"), InfoSection::REPLICATION);
    assert_eq!(InfoSection::REPLICATION.to_string(), "REPLICATION");
}

#[test]
fn ping_with_message_and_too_many() {
    let mut env = Environment::new(Role::Master, 1);
    assert_eq!(answer(&mut env, b"*2\r\n$4\r\nping\r\n$2\r\nhi\r\n"), b"$2\r\nhi\r\n".to_vec());
    assert_eq!(
        answer(&mut env, b"*3\r\n$4\r\nPING\r\n$1\r\na\r\n$1\r\nb\r\n"),
        b"-ERR wrong number of arguments\r\n".to_vec()
    );
}

#[test]
fn argument_errors_answer_err() {
    let mut env = Environment::new(Role::Master, 1);
    assert_eq!(answer(&mut env, b"*1\r\n$4\r\nECHO\r\n"), b"-ERR wrong number of arguments\r\n".to_vec());
    assert_eq!(
        answer(&mut env, b"*2\r\n$3\r\nSET\r\n$1\r\nk\r\n"),
        b"-ERR wrong number of arguments\r\n".to_vec()
    );
    assert_eq!(
        answer(&mut env, b"*5\r\n$3\r\nSET\r\n$1\r\nk\r\n$1\r\nv\r\n$2\r\nEX\r\n$1\r\n1\r\n"),
        b"-ERR syntax error\r\n".to_vec()
    );
    assert_eq!(
        answer(&mut env, b"*5\r\n$3\r\nSET\r\n$1\r\nk\r\n$1\r\nv\r\n$2\r\npx\r\n$2\r\n1x\r\n"),
        b"-ERR value is not an integer or out of range\r\n".to_vec()
    );
    assert_eq!(
        answer(&mut env, b"*5\r\n$3\r\nSET\r\n$1\r\nk\r\n$1\r\nv\r\n$2\r\npx\r\n$20\r\n99999999999999999999\r\n"),
        b"-ERR value is not an integer or out of range\r\n".to_vec()
    );
    assert_eq!(answer(&mut env, b"*1\r\n$3\r\nGET\r\n"), b"-ERR wrong number of arguments\r\n".to_vec());
    assert_eq!(
        answer(&mut env, b"*2\r\n$4\r\nINFO\r\n$6\r\nmemory\r\n"),
        b"-ERR unknown INFO section\r\n".to_vec()
    );
    assert_eq!(answer(&mut env, b"*1\r\n$4\r\nINFO\r\n"), b"-ERR wrong number of arguments\r\n".to_vec());
    assert_eq!(answer(&mut env, b"*1\r\n$4\r\nPONG\r\n"), b"-ERR unknown command\r\n".to_vec());
    assert_eq!(answer(&mut env, b"*0\r\n"), b"-ERR unknown command\r\n".to_vec());
    assert!(env.get(b"k", 0).is_none());
}

#[test]
fn replconf_answers_ok() {
    let mut env = Environment::new(Role::Master, 1);
    assert_eq!(
        answer(&mut env, b"*3\r\n$8\r\nREPLCONF\r\n$4\r\ncapa\r\n$6\r\npsync2\r\n"),
        b"+OK\r\n".to_vec()
    );
}

#[test]
fn psync_sends_fullresync_and_snapshot() {
    let mut env = Environment::new(Role::Master, 1);
    env.set_master_replid("8371b4fb1155b71f4a04d3e1bc3e18c4a990aeeb".to_string());
    let reply = request(b"*3\r\n$5\r\nPSYNC\r\n$1\r\n?\r\n$2\r\n-1\r\n")
        .reflect(&mut env, Link::Client, 0)
        .unwrap();
    assert!(reply.register_replica);
    assert!(!reply.propagate);
    let head = b"+FULLRESYNC 8371b4fb1155b71f4a04d3e1bc3e18c4a990aeeb 0\r\n$88\r\n";
    assert_eq!(&reply.response[..head.len()], &head[..]);
    let rdb = &reply.response[head.len()..];
    assert_eq!(rdb.len(), 88);
    assert_eq!(&rdb[..9], b"REDIS0011");
    assert_eq!(rdb[rdb.len() - 9], 0xff);
}

#[test]
fn psync_on_a_replica_is_refused() {
    let mut env = Environment::new(Role::Slave, 1);
    let reply = request(b"*3\r\n$5\r\nPSYNC\r\n$1\r\n?\r\n$2\r\n-1\r\n")
        .reflect(&mut env, Link::Client, 0)
        .unwrap();
    assert_eq!(reply.response, b"-ERR only a primary serves PSYNC\r\n".to_vec());
    assert!(!reply.register_replica);
}

#[test]
fn set_on_replica_link_is_silent() {
    let mut env = Environment::new(Role::Slave, 1);
    let reply = request(b"*3\r\n$3\r\nSET\r\n$1\r\nx\r\n$1\r\ny\r\n")
        .reflect(&mut env, Link::Primary, 0)
        .unwrap();
    assert!(reply.response.is_empty());
    assert!(!reply.propagate);
    assert_eq!(env.get(b"x", 0), Some(b"y".to_vec()));
}

#[test]
fn client_set_on_replica_answers_without_propagating() {
    let mut env = Environment::new(Role::Slave, 1);
    let reply = request(b"*3\r\n$3\r\nSET\r\n$1\r\nx\r\n$1\r\ny\r\n")
        .reflect(&mut env, Link::Client, 0)
        .unwrap();
    assert_eq!(reply.response, b"+OK\r\n".to_vec());
    assert!(!reply.propagate);
}

#[test]
fn propagation_targets_follow_registration_order() {
    let mut env = Environment::new(Role::Master, 1);
    let req = request(b"*3\r\n$3\r\nSET\r\n$1\r\nx\r\n$1\r\ny\r\n");
    assert_eq!(req.propagate(&env).unwrap(), Vec::<u64>::new());
    env.add_slave(5, 0);
    env.add_slave(2, 0);
    assert_eq!(req.propagate(&env).unwrap(), vec![5, 2]);
    let mut bare = Resp2::new();
    bare.set_kind(RespCommand::SET);
    assert!(bare.propagate(&env).is_err());
}

#[test]
fn serialize_and_deserialize() {
    let mut req = Resp2::new();
    req.set_data(vec![b"ECHO".to_vec(), b"hi".to_vec()]);
    let array: Vec<u8> = req.serialize_array();
    assert_eq!(array, b"*2\r\n$4\r\nECHO\r\n$2\r\nhi\r\n".to_vec());
    let bulks: Vec<u8> = req.serialize_bulk_string();
    assert_eq!(bulks, b"$4\r\nECHO\r\n$2\r\nhi\r\n".to_vec());
    let mut back = Resp2::new();
    back.deserialize(array.clone()).unwrap();
    assert_eq!(back.kind(), RespCommand::ECHO);
    assert_eq!(back.data(), &vec![b"ECHO".to_vec(), b"hi".to_vec()]);
    assert_eq!(back.literal(), &array);
    assert!(Resp2::new().deserialize(b"*2\r\n$4\r\nECHO".to_vec()).is_err());
    assert!(Resp2::new().deserialize(b"$4\r\nECHO\r\n".to_vec()).is_err());
}

#[test]
fn replicaof_values() {
    assert_eq!(parse_replicaof("localhost 6379"), Some(("localhost".to_string(), 6379)));
    assert_eq!(parse_replicaof("localhost"), None);
    assert_eq!(parse_replicaof(" 6379"), None);
    assert_eq!(parse_replicaof("localhost 0"), None);
    assert_eq!(parse_replicaof("localhost 70000"), None);
    assert_eq!(parse_replicaof("localhost x"), None);
}

#[test]
fn cli_server_state() {
    let cli = Cli { port: 7000, replicaof: None, command: None };
    let env = cli.server_state().unwrap();
    assert_eq!(env.role(), "master");
    assert_eq!(env.port(), 7000);
    let cli = Cli { port: 7001, replicaof: Some("127.0.0.1 7000".to_string()), command: None };
    let env = cli.server_state().unwrap();
    assert_eq!(env.role(), "slave");
    assert_eq!(env.master_host(), Some("127.0.0.1"));
    assert_eq!(env.master_port(), Some(7000));
    let cli = Cli { port: 7001, replicaof: Some("127.0.0.1:7000".to_string()), command: None };
    assert!(cli.server_state().is_err());
}

#[test]
fn names_fold_by_unicode_rules() {
    assert_eq!(RespCommand::from_str("\u{17f}et"), RespCommand::SET);
    assert_eq!(RespCommand::from_bytes("g\u{e9}t".as_bytes()), RespCommand::UNDEFINED);
    assert_eq!(RespCommand::from_bytes(&[0xff, b'E', b'T']), RespCommand::UNDEFINED);
    assert_eq!(InfoSection::parse("repl\u{131}cat\u{131}on".as_bytes()), Some(InfoSection::REPLICATION));
    assert_eq!(InfoSection::from_str("repl\u{131}cat\u{131}on"), InfoSection::REPLICATION);
    let mut env = Environment::new(Role::Master, 1);
    assert_eq!(answer(&mut env, b"*1\r\n$2\r\n\xff\xfe\r\n"), b"-ERR unknown command\r\n".to_vec());
}

#[test]
fn px_accepts_a_plus_sign() {
    let mut env = Environment::new(Role::Master, 1);
    let set = b"*5\r\n$3\r\nSET\r\n$1\r\nk\r\n$1\r\nv\r\n$2\r\nPx\r\n$4\r\n+100\r\n";
    assert_eq!(request(set).reflect(&mut env, Link::Client, 1_000).unwrap().response, b"+OK\r\n".to_vec());
    assert_eq!(env.get(b"k", 1_099), Some(b"v".to_vec()));
    assert_eq!(env.get(b"k", 1_100), None);
}

#[test]
fn serialize_known_commands() {
    let mut req = Resp2::new();
    req.set_data(vec![b"SET".to_vec(), b"a".to_vec(), b"1".to_vec()]);
    let array: Vec<u8> = req.serialize_array();
    assert_eq!(array, b"*3\r\n$3\r\nSET\r\n$1\r\na\r\n$1\r\n1\r\n".to_vec());
    req.set_data(vec!["\u{e9}".as_bytes().to_vec()]);
    let bulks: Vec<u8> = req.serialize_bulk_string();
    assert_eq!(bulks, "$2\r\n\u{e9}\r\n".as_bytes().to_vec());
}

#[test]
fn deserialize_round_trip_and_text_input() {
    let args = vec![b"ECHO".to_vec(), b"a\r\nb".to_vec()];
    let mut req = Resp2::new();
    req.set_data(args.clone());
    let enc: Vec<u8> = req.serialize_array();
    let mut back = Resp2::new();
    assert_eq!(back.deserialize(enc.clone()), Ok(()));
    assert_eq!(back.data(), &args);
    assert_eq!(back.literal(), &enc);
    assert_eq!(back.kind(), RespCommand::ECHO);
    let mut text = Resp2::new();
    assert_eq!(text.deserialize("*2\r\n$4\r\nECHO\r\n$5\r\nhello\r\n"), Ok(()));
    assert_eq!(text.kind(), RespCommand::ECHO);
    assert_eq!(text.data(), &vec![b"ECHO".to_vec(), b"hello".to_vec()]);
    assert_eq!(text.literal(), &b"*2\r\n$4\r\nECHO\r\n$5\r\nhello\r\n".to_vec());
    assert!(text.deserialize("*1\r\n").is_err());
    assert_eq!(text.kind(), RespCommand::ECHO);
}
