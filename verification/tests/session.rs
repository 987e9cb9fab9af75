use kv_cache::command::Command;
use kv_cache::reply::Reply;
use kv_cache::session::dispatch;
use kv_cache::session::dispatch_at;
use kv_cache::session::respond;
use kv_cache::session::respond_at;
use kv_cache::session::Action;
use kv_cache::session::Event;
use kv_cache::session::Phase;
use kv_cache::session::Session;
use kv_cache::store::Storage;

#[test]
fn replies_on_the_wire() {
    assert_eq!(Reply::SimpleString(b"PONG".to_vec()).encode(), b"+PONG\r\n".to_vec());
    assert_eq!(Reply::SimpleString(b"".to_vec()).encode(), b"+\r\n".to_vec());
    assert_eq!(Reply::NilReply.encode(), b"$-1\r\n".to_vec());
    assert_eq!(Reply::ErrorReply(b"ERR".to_vec()).encode(), b"-ERR\r\n".to_vec());
}

#[test]
fn echo_round_trip() {
    let mut s = Storage::new();
    let r = dispatch(&mut s, Command::Echo(b"hello".to_vec()));
    assert_eq!(r, Reply::SimpleString(b"hello".to_vec()));
    assert_eq!(
        respond(&mut s, b"*2\r\n$4\r\necho\r\n$5\r\nhello\r\n"),
        b"+hello\r\n".to_vec()
    );
}

#[test]
fn dispatch_table() {
    let mut s = Storage::new();
    assert_eq!(dispatch_at(&mut s, Command::Ping, 0), Reply::SimpleString(b"PONG".to_vec()));
    assert_eq!(dispatch_at(&mut s, Command::Unrecognized, 0), Reply::ErrorReply(b"ERR".to_vec()));
    assert_eq!(dispatch_at(&mut s, Command::Get(b"a".to_vec()), 0), Reply::NilReply);
    assert_eq!(
        dispatch_at(&mut s, Command::SetValue(b"a".to_vec(), b"1".to_vec()), 0),
        Reply::SimpleString(b"OK".to_vec())
    );
    assert_eq!(
        dispatch_at(&mut s, Command::Get(b"a".to_vec()), 0),
        Reply::SimpleString(b"1".to_vec())
    );
    assert_eq!(
        dispatch_at(&mut s, Command::SetWithTTL(b"b".to_vec(), b"2".to_vec(), 10), 100),
        Reply::SimpleString(b"OK".to_vec())
    );
    assert_eq!(
        dispatch_at(&mut s, Command::Get(b"b".to_vec()), 109),
        Reply::SimpleString(b"2".to_vec())
    );
    assert_eq!(dispatch_at(&mut s, Command::Get(b"b".to_vec()), 110), Reply::NilReply);
    assert_eq!(dispatch_at(&mut s, Command::Get(b"b".to_vec()), 100), Reply::NilReply);
}

#[test]
fn respond_with_ttl_on_given_times() {
    let mut s = Storage::new();
    let set = b"*5\r\n$3\r\nset\r\n$1\r\nk\r\n$1\r\nv\r\n$2\r\npx\r\n$2\r\n50\r\n";
    let get = b"*2\r\n$3\r\nget\r\n$1\r\nk\r\n";
    assert_eq!(respond_at(&mut s, set, 1000), b"+OK\r\n".to_vec());
    assert_eq!(respond_at(&mut s, get, 1049), b"+v\r\n".to_vec());
    assert_eq!(respond_at(&mut s, get, 1050), b"$-1\r\n".to_vec());
    assert_eq!(respond_at(&mut s, get, 1051), b"$-1\r\n".to_vec());
}

#[test]
fn respond_with_zero_ttl() {
    let mut s = Storage::new();
    let set = b"*5\r\n$3\r\nset\r\n$1\r\nk\r\n$1\r\nv\r\n$2\r\npx\r\n$1\r\n0\r\n";
    let get = b"*2\r\n$3\r\nget\r\n$1\r\nk\r\n";
    assert_eq!(respond(&mut s, set), b"+OK\r\n".to_vec());
    assert_eq!(respond(&mut s, get), b"$-1\r\n".to_vec());
}

#[test]
fn respond_to_bad_ttl_writes_nothing() {
    let mut s = Storage::new();
    let set = b"*5\r\n$3\r\nset\r\n$1\r\nk\r\n$1\r\nv\r\n$2\r\npx\r\n$1\r\nx\r\n";
    let get = b"*2\r\n$3\r\nget\r\n$1\r\nk\r\n";
    assert_eq!(respond(&mut s, set), b"-ERR\r\n".to_vec());
    assert_eq!(respond(&mut s, get), b"$-1\r\n".to_vec());
}

fn exchange(session: &mut Session, input: &[u8]) -> Vec<u8> {
    assert_eq!(session.phase, Phase::Reading);
    let out = match session.step(Event::Received(input.to_vec())) {
        Action::Send(out) => out,
        other => panic!("no reply: {:?}", other),
    };
    assert_eq!(session.phase, Phase::Replying);
    assert_eq!(session.step(Event::Sent), Action::Read);
    assert_eq!(session.phase, Phase::Reading);
    out
}

#[test]
fn session_scenario() {
    let mut session = Session::new();
    assert_eq!(exchange(&mut session, b"*1\r\n$4\r\nping\r\n"), b"+PONG\r\n".to_vec());
    assert_eq!(
        exchange(&mut session, b"*2\r\n$3\r\nget\r\n$7\r\nmissing\r\n"),
        b"$-1\r\n".to_vec()
    );
    assert_eq!(
        exchange(&mut session, b"*3\r\n$3\r\nset\r\n$1\r\na\r\n$1\r\n1\r\n"),
        b"+OK\r\n".to_vec()
    );
    assert_eq!(exchange(&mut session, b"*2\r\n$3\r\nget\r\n$1\r\na\r\n"), b"+1\r\n".to_vec());
    // Input without a verb: an error reply, and the session goes on.
    assert_eq!(exchange(&mut session, b"*1\r\n"), b"-ERR\r\n".to_vec());
    assert_eq!(exchange(&mut session, b"garbage"), b"-ERR\r\n".to_vec());
    assert_eq!(exchange(&mut session, b"*1\r\n$4\r\nping\r\n"), b"+PONG\r\n".to_vec());
    assert_eq!(exchange(&mut session, b"*2\r\n$3\r\nget\r\n$1\r\na\r\n"), b"+1\r\n".to_vec());
}

#[test]
fn session_closes_when_the_peer_does() {
    let mut session = Session::new();
    assert_eq!(session.step(Event::Received(Vec::new())), Action::Close);
    assert_eq!(session.phase, Phase::Closed);
    assert_eq!(session.step(Event::Received(b"*1\r\n$4\r\nping\r\n".to_vec())), Action::Close);
    assert_eq!(session.step(Event::Sent), Action::Close);
    assert_eq!(session.phase, Phase::Closed);
}

#[test]
fn session_closes_on_failure() {
    let mut reading = Session::new();
    assert_eq!(reading.step(Event::Failed), Action::Close);
    assert_eq!(reading.phase, Phase::Closed);

    let mut replying = Session::new();
    assert_eq!(
        replying.step_at(Event::Received(b"*1\r\n$4\r\nping\r\n".to_vec()), 0),
        Action::Send(b"+PONG\r\n".to_vec())
    );
    assert_eq!(replying.step_at(Event::Failed, 0), Action::Close);
    assert_eq!(replying.phase, Phase::Closed);
}

#[test]
fn session_closes_on_an_event_out_of_turn() {
    let mut reading = Session::new();
    assert_eq!(reading.step_at(Event::Sent, 0), Action::Close);
    assert_eq!(reading.phase, Phase::Closed);

    let mut replying = Session::new();
    assert_eq!(
        replying.step_at(Event::Received(b"x".to_vec()), 0),
        Action::Send(b"-ERR\r\n".to_vec())
    );
    assert_eq!(replying.step_at(Event::Received(b"y".to_vec()), 0), Action::Close);
    assert_eq!(replying.phase, Phase::Closed);
}

#[test]
fn session_store_is_its_own() {
    let mut one = Session::new();
    let mut two = Session::new();
    assert_eq!(
        exchange(&mut one, b"*3\r\n$3\r\nset\r\n$1\r\na\r\n$1\r\n1\r\n"),
        b"+OK\r\n".to_vec()
    );
    assert_eq!(exchange(&mut two, b"*2\r\n$3\r\nget\r\n$1\r\na\r\n"), b"$-1\r\n".to_vec());
    assert_eq!(exchange(&mut one, b"*2\r\n$3\r\nget\r\n$1\r\na\r\n"), b"+1\r\n".to_vec());
}
