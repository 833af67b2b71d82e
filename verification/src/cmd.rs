//! The key-value commands `PING`, `SET` and `GET` over a store of byte values
//! keyed by UTF-8 strings.
use vstd::prelude::*;
use vstd::hash_map::StringHashMap;
use vstd::utf8::{decode_utf8, valid_utf8};
use crate::protocol::{args_view, RespValue};

verus! {

/// The shared store: string keys, byte values.
pub struct Store {
    map: StringHashMap<Vec<u8>>,
}

impl View for Store {
    type V = Map<Seq<char>, Seq<u8>>;

    closed spec fn view(&self) -> Map<Seq<char>, Seq<u8>> {
        self.map@.map_values(|v: Vec<u8>| v@)
    }
}

impl Store {
    /// An empty store.
    pub fn new() -> (s: Store)
        ensures
            s@ == Map::<Seq<char>, Seq<u8>>::empty(),
    {
        let s = Store { map: StringHashMap::new() };
        assert(s@ =~= Map::<Seq<char>, Seq<u8>>::empty());
        s
    }
}

/// A reply of a command, as a mathematical value.
pub enum Reply {
    Simple(Seq<char>),
    Bulk(Option<Seq<u8>>),
    Error(Seq<char>),
}

/// `v` is the reply `m`.
pub open spec fn reply_is(v: &RespValue, m: Reply) -> bool {
    match m {
        Reply::Simple(s) => v matches RespValue::SimpleString(x) && x@ == s,
        Reply::Bulk(Some(b)) => v matches RespValue::BulkString(Some(x)) && x@ == b,
        Reply::Bulk(None) => v matches RespValue::BulkString(None),
        Reply::Error(s) => v matches RespValue::Error(x) && x@ == s,
    }
}

/// ASCII upper case of one byte; other bytes stay as they are.
pub open spec fn upper_ascii(b: u8) -> u8 {
    if 97 <= b <= 122 {
        (b - 32) as u8
    } else {
        b
    }
}

/// The command name `name` is `word` (written in upper case), ignoring ASCII case.
///
/// This is what comparing `String::from_utf8_lossy(name).to_ascii_uppercase()` with
/// `word` decides: an ASCII word can only come from the same bytes, since every
/// replacement character and every other non-ASCII character stays non-ASCII.
pub open spec fn names_command(name: Seq<u8>, word: Seq<u8>) -> bool {
    &&& name.len() == word.len()
    &&& forall|i: int| 0 <= i < name.len() ==> upper_ascii(#[trigger] name[i]) == word[i]
}

pub open spec fn word_ping() -> Seq<u8> {
    seq![80u8, 73u8, 78u8, 71u8]
}

pub open spec fn word_set() -> Seq<u8> {
    seq![83u8, 69u8, 84u8]
}

pub open spec fn word_get() -> Seq<u8> {
    seq![71u8, 69u8, 84u8]
}

/// What a command replies, and what the store holds afterwards.
pub open spec fn command_spec(args: Seq<Seq<u8>>, db: Map<Seq<char>, Seq<u8>>) -> (Reply, Map<Seq<char>, Seq<u8>>) {
    if args.len() == 0 {
        (Reply::Error("ERR empty command"@), db)
    } else if names_command(args[0], word_ping()) {
        (Reply::Simple("PONG"@), db)
    } else if names_command(args[0], word_set()) {
        if args.len() != 3 {
            (Reply::Error("ERR wrong number of arguments for 'SET'"@), db)
        } else if !valid_utf8(args[1]) {
            (Reply::Error("ERR key must be UTF-8"@), db)
        } else {
            (Reply::Simple("OK"@), db.insert(decode_utf8(args[1]), args[2]))
        }
    } else if names_command(args[0], word_get()) {
        if args.len() != 2 {
            (Reply::Error("ERR wrong number of arguments for 'GET'"@), db)
        } else if !valid_utf8(args[1]) {
            (Reply::Error("ERR key must be UTF-8"@), db)
        } else {
            let key = decode_utf8(args[1]);
            (Reply::Bulk(if db.contains_key(key) { Some(db[key]) } else { None }), db)
        }
    } else {
        (Reply::Error("ERR unknown command"@), db)
    }
}

/// Compares a command name with an upper-case word, ignoring ASCII case.
pub fn command_is(name: &[u8], word: &[u8]) -> (r: bool)
    ensures
        r == names_command(name@, word@),
{
    if name.len() != word.len() {
        return false;
    }
    let n = name.len();
    let mut i: usize = 0;
    while i < n
        invariant
            i <= n,
            n == name@.len(),
            n == word@.len(),
            forall|j: int| 0 <= j < i ==> upper_ascii(#[trigger] name@[j]) == word@[j],
        decreases n - i,
    {
        let b = name[i];
        let u: u8 = if 97 <= b && b <= 122 { b - 32 } else { b };
        if u != word[i] {
            return false;
        }
        i = i + 1;
    }
    true
}

fn error_reply(msg: &str) -> (r: RespValue)
    ensures
        reply_is(&r, Reply::Error(msg@)),
{
    RespValue::Error(msg.to_owned())
}

/// Runs one command against the store.
pub fn execute(args: Vec<Vec<u8>>, db: &mut Store) -> (r: RespValue)
    ensures
        reply_is(&r, command_spec(args_view(args@), old(db)@).0),
        final(db)@ == command_spec(args_view(args@), old(db)@).1,
{
    let ghost a = args_view(args@);
    if args.len() == 0 {
        return error_reply("ERR empty command");
    }
    let ping: [u8; 4] = [80, 73, 78, 71];
    let set: [u8; 3] = [83, 69, 84];
    let get: [u8; 3] = [71, 69, 84];
    assert(ping@ =~= word_ping());
    assert(set@ =~= word_set());
    assert(get@ =~= word_get());
    assert(a[0] == args@[0]@);
    if command_is(args[0].as_slice(), &ping) {
        RespValue::SimpleString("PONG".to_owned())
    } else if command_is(args[0].as_slice(), &set) {
        if args.len() != 3 {
            return error_reply("ERR wrong number of arguments for 'SET'");
        }
        assert(a[1] == args@[1]@ && a[2] == args@[2]@);
        let mut args = args;
        let value = args.pop().unwrap();
        let key_bytes = args.pop().unwrap();
        match String::from_utf8(key_bytes) {
            Ok(key) => {
                db.map.insert(key, value);
                assert(db@ =~= old(db)@.insert(decode_utf8(a[1]), a[2]));
                RespValue::SimpleString("OK".to_owned())
            },
            Err(_) => error_reply("ERR key must be UTF-8"),
        }
    } else if command_is(args[0].as_slice(), &get) {
        if args.len() != 2 {
            return error_reply("ERR wrong number of arguments for 'GET'");
        }
        assert(a[1] == args@[1]@);
        let mut args = args;
        let key_bytes = args.pop().unwrap();
        match String::from_utf8(key_bytes) {
            Ok(key) => match db.map.get(key.as_str()) {
                Some(v) => RespValue::BulkString(Some(vstd::slice::slice_to_vec(v.as_slice()))),
                None => RespValue::BulkString(None),
            },
            Err(_) => error_reply("ERR key must be UTF-8"),
        }
    } else {
        error_reply("ERR unknown command")
    }
}

/// After `SET key value`, `GET key` answers `value`, and changes nothing.
pub proof fn law_get_after_set(
    db: Map<Seq<char>, Seq<u8>>,
    set_name: Seq<u8>,
    get_name: Seq<u8>,
    key: Seq<u8>,
    value: Seq<u8>,
)
    requires
        names_command(set_name, word_set()),
        names_command(get_name, word_get()),
        valid_utf8(key),
    ensures
        ({
            let after = command_spec(seq![set_name, key, value], db);
            &&& after.0 == Reply::Simple("OK"@)
            &&& command_spec(seq![get_name, key], after.1) == (Reply::Bulk(Some(value)), after.1)
        }),
{
    lemma_words_differ(set_name);
    lemma_words_differ(get_name);
}

/// `SET` on one key leaves what `GET` answers for every other key as it was.
pub proof fn law_set_keeps_other_keys(
    db: Map<Seq<char>, Seq<u8>>,
    set_name: Seq<u8>,
    get_name: Seq<u8>,
    key: Seq<u8>,
    value: Seq<u8>,
    other: Seq<u8>,
)
    requires
        names_command(set_name, word_set()),
        names_command(get_name, word_get()),
        valid_utf8(key),
        decode_utf8(key) != decode_utf8(other),
    ensures
        command_spec(seq![get_name, other], command_spec(seq![set_name, key, value], db).1).0
            == command_spec(seq![get_name, other], db).0,
{
    lemma_words_differ(set_name);
    lemma_words_differ(get_name);
}

/// A name that is one command word is no other.
proof fn lemma_words_differ(name: Seq<u8>)
    ensures
        names_command(name, word_set()) ==> !names_command(name, word_ping())
            && !names_command(name, word_get()),
        names_command(name, word_get()) ==> !names_command(name, word_ping())
            && !names_command(name, word_set()),
{
    if names_command(name, word_set()) {
        assert(upper_ascii(name[0]) == 83u8);
    }
    if names_command(name, word_get()) {
        assert(upper_ascii(name[0]) == 71u8);
    }
}

/// `PING` answers `PONG` whatever arguments follow it, and changes nothing.
pub proof fn law_ping(args: Seq<Seq<u8>>, db: Map<Seq<char>, Seq<u8>>)
    requires
        args.len() >= 1,
        names_command(args[0], word_ping()),
    ensures
        command_spec(args, db) == (Reply::Simple("PONG"@), db),
{
}

/// Only a well-formed `SET` changes the store, and only at its key; every command
/// that is answered with an error leaves the store as it was.
pub proof fn law_only_set_writes(args: Seq<Seq<u8>>, db: Map<Seq<char>, Seq<u8>>)
    ensures
        command_spec(args, db).0 is Error ==> command_spec(args, db).1 == db,
        command_spec(args, db).1 != db ==> {
            &&& args.len() == 3
            &&& names_command(args[0], word_set())
            &&& valid_utf8(args[1])
            &&& command_spec(args, db).1 == db.insert(decode_utf8(args[1]), args[2])
        },
{
}

/// Command names are read without regard to ASCII case: two names that agree up to
/// case give the same reply and the same store.
pub proof fn law_names_ignore_case(args: Seq<Seq<u8>>, name: Seq<u8>, db: Map<Seq<char>, Seq<u8>>)
    requires
        args.len() >= 1,
        name.len() == args[0].len(),
        forall|i: int| 0 <= i < name.len() ==> upper_ascii(#[trigger] name[i]) == upper_ascii(args[0][i]),
    ensures
        command_spec(args.update(0, name), db) == command_spec(args, db),
{
    let b = args.update(0, name);
    assert(b[0] == name);
    assert forall|w: Seq<u8>| names_command(name, w) == names_command(args[0], w) by {
        if names_command(name, w) {
            assert forall|i: int| 0 <= i < args[0].len() implies upper_ascii(#[trigger] args[0][i]) == w[i] by {
                assert(upper_ascii(name[i]) == w[i]);
            }
        }
        if names_command(args[0], w) {
            assert forall|i: int| 0 <= i < name.len() implies upper_ascii(#[trigger] name[i]) == w[i] by {
                assert(upper_ascii(args[0][i]) == w[i]);
            }
        }
    }
    assert(names_command(name, word_ping()) == names_command(args[0], word_ping()));
    assert(names_command(name, word_set()) == names_command(args[0], word_set()));
    assert(names_command(name, word_get()) == names_command(args[0], word_get()));
    assert(b.len() == args.len());
    assert(b.len() >= 2 ==> b[1] == args[1]);
    assert(b.len() >= 3 ==> b[2] == args[2]);
}

/// `SET` answers `OK` exactly when it has two arguments and a UTF-8 key, and then a
/// following `GET` of that key answers the stored value; with any other number of
/// arguments it answers the wrong-number-of-arguments error, and with a key that is
/// not UTF-8 the key error, and in both cases the store is left as it was.
pub proof fn law_set_replies(args: Seq<Seq<u8>>, db: Map<Seq<char>, Seq<u8>>, get_name: Seq<u8>)
    requires
        args.len() >= 1,
        names_command(args[0], word_set()),
        names_command(get_name, word_get()),
    ensures
        command_spec(args, db).0 == Reply::Simple("OK"@) <==> (args.len() == 3 && valid_utf8(
            args[1],
        )),
        command_spec(args, db).0 == Reply::Simple("OK"@) ==> command_spec(
            seq![get_name, args[1]],
            command_spec(args, db).1,
        ).0 == Reply::Bulk(Some(args[2])),
        args.len() != 3 ==> command_spec(args, db) == (
            Reply::Error("ERR wrong number of arguments for 'SET'"@),
            db,
        ),
        args.len() == 3 && !valid_utf8(args[1]) ==> command_spec(args, db) == (
            Reply::Error("ERR key must be UTF-8"@),
            db,
        ),
{
    lemma_words_differ(args[0]);
    lemma_words_differ(get_name);
    reveal_strlit("OK");
    reveal_strlit("ERR wrong number of arguments for 'SET'");
    reveal_strlit("ERR key must be UTF-8");
}

/// `GET` with one UTF-8 key answers the value stored under it, or nil where there is
/// none; with any other number of arguments it answers the wrong-number-of-arguments
/// error. It never changes the store.
pub proof fn law_get_replies(args: Seq<Seq<u8>>, db: Map<Seq<char>, Seq<u8>>)
    requires
        args.len() >= 1,
        names_command(args[0], word_get()),
    ensures
        command_spec(args, db).1 == db,
        args.len() != 2 ==> command_spec(args, db).0 == Reply::Error(
            "ERR wrong number of arguments for 'GET'"@,
        ),
        args.len() == 2 && valid_utf8(args[1]) && db.contains_key(decode_utf8(args[1]))
            ==> command_spec(args, db).0 == Reply::Bulk(Some(db[decode_utf8(args[1])])),
        args.len() == 2 && valid_utf8(args[1]) && !db.contains_key(decode_utf8(args[1]))
            ==> command_spec(args, db).0 == Reply::Bulk(None),
{
    lemma_words_differ(args[0]);
}

} // verus!
