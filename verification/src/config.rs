//! The server's configuration, fixed at startup.

use crate::args::ServiceArguments;
use vstd::prelude::*;
use vstd::string::StrSliceExecFns;
use vstd::string::StringExecFns;

verus! {

/// The port that the server listens on where none is given.
pub const DEFAULT_PORT: usize = 6379;

/// The configuration of a running server.
pub struct Config {
    /// The port to listen on.
    pub port: usize,
    /// The name of the snapshot file, if one is configured.
    pub dbfilename: Option<String>,
    /// The directory of the snapshot file, if one is configured.
    pub dir: Option<String>,
    /// The address of the primary as `host:port`; absent on a primary.
    pub replicaof: Option<String>,
}

/// Mathematical model of a configuration.
pub struct ConfigView {
    pub port: nat,
    pub dbfilename: Option<Seq<char>>,
    pub dir: Option<Seq<char>>,
    pub replicaof: Option<Seq<char>>,
}

/// The characters of a text that may be absent.
pub open spec fn text_of(value: Option<String>) -> Option<Seq<char>> {
    match value {
        Some(s) => Some(s@),
        None => None,
    }
}

impl View for Config {
    type V = ConfigView;

    open spec fn view(&self) -> ConfigView {
        ConfigView {
            port: self.port as nat,
            dbfilename: text_of(self.dbfilename),
            dir: text_of(self.dir),
            replicaof: text_of(self.replicaof),
        }
    }
}

/// The text `s` with `to` in place of every occurrence of the character
/// `from`.
pub open spec fn replaced(s: Seq<char>, from: char, to: Seq<char>) -> Seq<char>
    decreases s.len(),
{
    if s.len() == 0 {
        Seq::empty()
    } else {
        (if s[0] == from {
            to
        } else {
            seq![s[0]]
        }) + replaced(s.skip(1), from, to)
    }
}

/// The value that the configuration `config` gives for the name `name`:
/// `dir` and `dbfilename` are the names it knows.
pub open spec fn lookup(config: ConfigView, name: Seq<char>) -> Option<Seq<char>> {
    if name == "dir"@ {
        config.dir
    } else if name == "dbfilename"@ {
        config.dbfilename
    } else {
        None
    }
}

/// Replacing in a text with one more character at its end replaces in the
/// text and then in that character.
proof fn lemma_replaced_push(s: Seq<char>, last: char, from: char, to: Seq<char>)
    ensures
        replaced(s.push(last), from, to) == replaced(s, from, to) + if last == from {
            to
        } else {
            seq![last]
        },
    decreases s.len(),
{
    let all = s.push(last);
    let tail = if last == from {
        to
    } else {
        seq![last]
    };
    if s.len() == 0 {
        assert(all.skip(1) =~= Seq::<char>::empty());
        assert(all[0] == last);
        assert(replaced(all.skip(1), from, to) =~= Seq::<char>::empty());
        assert(replaced(all, from, to) =~= tail);
        assert(replaced(s, from, to) + tail =~= tail);
    } else {
        lemma_replaced_push(s.skip(1), last, from, to);
        assert(all.skip(1) =~= s.skip(1).push(last));
        let head = if s[0] == from {
            to
        } else {
            seq![s[0]]
        };
        assert(head + (replaced(s.skip(1), from, to) + tail) =~= (head + replaced(
            s.skip(1),
            from,
            to,
        )) + tail);
    }
}

/// The text `s` with `to` in place of every occurrence of the character
/// `from`. It looks up each character by its index, which is fit for the
/// short texts of a command line.
fn replace_char(s: &str, from: char, to: &str) -> (out: String)
    ensures
        out@ == replaced(s@, from, to@),
{
    let length: usize = s.unicode_len();
    let mut out = String::new();
    let mut i: usize = 0;
    while i < length
        invariant
            i <= length,
            length == s@.len(),
            out@ == replaced(s@.take(i as int), from, to@),
        decreases length - i,
    {
        let c = s.get_char(i);
        proof {
            lemma_replaced_push(s@.take(i as int), c, from, to@);
            assert(s@.take(i as int).push(c) =~= s@.take(i + 1));
        }
        if c == from {
            out.append(to);
        } else {
            out.append(s.substring_char(i, i + 1));
            assert(s@.subrange(i as int, i + 1) =~= seq![c]);
        }
        i = i + 1;
    }
    assert(s@.take(length as int) =~= s@);
    out
}

/// A copy of a text that may be absent.
fn copy_text(value: &Option<String>) -> (out: Option<String>)
    ensures
        text_of(out) == text_of(*value),
{
    match value {
        Some(s) => Some(s.clone()),
        None => None,
    }
}

/// The primary's address with a colon where the command line has spaces
/// between host and port.
pub fn reformat_replicaof(replicaof: Option<String>) -> (out: Option<String>)
    ensures
        text_of(out) == match replicaof {
            Some(r) => Some(replaced(r@, ' ', ":"@)),
            None => None,
        },
{
    if let Some(replicaof) = replicaof {
        return Some(replace_char(replicaof.as_str(), ' ', ":"));
    }
    None
}

impl Config {
    /// The configuration that the command line asks for: the default port
    /// where none is given, and the primary's address as `host:port`.
    pub fn from_args(args: ServiceArguments) -> (config: Config)
        ensures
            config.port == match args.port {
                Some(p) => p,
                None => DEFAULT_PORT,
            },
            config@.dbfilename == text_of(args.dbfilename),
            config@.dir == text_of(args.dir),
            config@.replicaof == match args.replicaof {
                Some(r) => Some(replaced(r@, ' ', ":"@)),
                None => None,
            },
    {
        Config {
            port: match args.port {
                Some(p) => p,
                None => DEFAULT_PORT,
            },
            dbfilename: args.dbfilename,
            dir: args.dir,
            replicaof: reformat_replicaof(args.replicaof),
        }
    }

    /// The value of the setting `config_name`, where the name is known and
    /// the setting has a value.
    pub fn get(&self, config_name: String) -> (value: Option<String>)
        ensures
            text_of(value) == lookup(self@, config_name@),
    {
        if config_name == "dir".to_owned() {
            copy_text(&self.dir)
        } else if config_name == "dbfilename".to_owned() {
            copy_text(&self.dbfilename)
        } else {
            None
        }
    }
}

} // verus!
