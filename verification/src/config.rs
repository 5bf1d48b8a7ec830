//! Where the client finds its server.
use crate::text::{
    cat3, chars_of, opt, split, split_on, string_of, strip_prefix, stripped, trim, trim_both, trim_end, trimmed,
    trimmed_end, views, Class,
};
use vstd::prelude::*;

verus! {

/// The server and the token to speak to it with.
#[derive(Debug)]
pub struct Config {
    pub server: String,
    pub token: String,
}

/// The value that a line gives to `key`: `key = "value"`.
pub open spec fn line_value(line: Seq<char>, key: Seq<char>) -> Option<Seq<char>> {
    match strip_prefix(trim(line), key) {
        Some(rest) => match strip_prefix(trim(rest), "="@) {
            Some(v) => Some(trim_both(trim(v), Class::Only('"'))),
            None => None,
        },
        None => None,
    }
}

/// The first value that a line from `i` on gives to `key`.
pub open spec fn value_from(lines: Seq<Seq<char>>, key: Seq<char>, i: int) -> Option<Seq<char>>
    decreases lines.len() - i,
{
    if i < 0 || i >= lines.len() {
        None
    } else {
        match line_value(lines[i], key) {
            Some(v) => Some(v),
            None => value_from(lines, key, i + 1),
        }
    }
}

/// The value that a file gives to `key`; none where there is no file.
pub open spec fn file_value(text: Option<Seq<char>>, key: Seq<char>) -> Option<Seq<char>> {
    match text {
        Some(t) => value_from(split(t, '\n'), key, 0),
        None => None,
    }
}

fn value_in(line: &Vec<char>, key: &str) -> (r: Option<String>)
    ensures
        opt(r) == line_value(line@, key@),
{
    match stripped(&trimmed(line, Class::White), key) {
        Some(rest) => match stripped(&trimmed(&rest, Class::White), "=") {
            Some(v) => Some(string_of(&trimmed(&trimmed(&v, Class::White), Class::Only('"')))),
            None => None,
        },
        None => None,
    }
}

/// The value that the text of a file gives to `key`: that of the first line `key = "value"`.
pub fn read_kv(text: Option<&str>, key: &str) -> (r: Option<String>)
    ensures
        opt(r) == file_value(
            match text {
                Some(t) => Some(t@),
                None => None,
            },
            key@,
        ),
{
    let t: &str = match text {
        Some(t) => t,
        None => {
            return None;
        },
    };
    let lines: Vec<Vec<char>> = split_on(&chars_of(t), '\n');
    let ghost all = views(lines@);
    let mut i: usize = 0;
    while i < lines.len()
        invariant
            i <= lines.len(),
            all == views(lines@),
            all == split(t@, '\n'),
            text matches Some(x) && x@ == t@,
            value_from(all, key@, 0) == value_from(all, key@, i as int),
        decreases lines.len() - i,
    {
        assert(all[i as int] == lines@[i as int]@);
        if let Some(v) = value_in(&lines[i], key) {
            return Some(v);
        }
        i += 1;
    }
    None
}

/// The first of several that is there.
pub open spec fn first_some(a: Option<Seq<char>>, b: Option<Seq<char>>) -> Option<Seq<char>> {
    if a is Some {
        a
    } else {
        b
    }
}

/// The address of the server: as asked for, else as in the client's file, else this machine;
/// without slashes at the end.
pub open spec fn server_of(flag: Option<Seq<char>>, client: Option<Seq<char>>) -> Seq<char> {
    trim_end(
        match first_some(flag, file_value(client, "server"@)) {
            Some(s) => s,
            None => "http://127.0.0.1:8787"@,
        },
        Class::Only('/'),
    )
}

/// The token: as asked for, else as in the client's file, else as in the server's on this
/// machine.
pub open spec fn token_of(flag: Option<Seq<char>>, client: Option<Seq<char>>, server: Option<Seq<char>>) -> Option<
    Seq<char>,
> {
    first_some(first_some(flag, file_value(client, "token"@)), file_value(server, "token"@))
}

/// What to say where no token is to be had.
pub open spec fn no_token(path: Seq<char>) -> Seq<char> {
    "no token: pass --token, or create "@ + path + " with server = \"http://host:8787\" and token = \"...\""@
}

/// Resolve server and token from the flags, then the client's file, then (same machine) the
/// server's file. `path` is where the client's file would be.
pub fn load(
    server: Option<String>,
    token: Option<String>,
    client_file: &Option<String>,
    server_file: &Option<String>,
    path: &str,
) -> (r: Result<Config, String>)
    ensures
        r is Ok <==> token_of(opt(token), opt(*client_file), opt(*server_file)) is Some,
        r matches Ok(c) ==> c.server@ == server_of(opt(server), opt(*client_file)) && Some(c.token@) == token_of(
            opt(token),
            opt(*client_file),
            opt(*server_file),
        ),
        r matches Err(e) ==> e@ == no_token(path@),
{
    let client: Option<&str> = match client_file {
        Some(t) => Some(t.as_str()),
        None => None,
    };
    let local: Option<&str> = match server_file {
        Some(t) => Some(t.as_str()),
        None => None,
    };
    let srv: String = match server {
        Some(s) => s,
        None => match read_kv(client, "server") {
            Some(s) => s,
            None => "http://127.0.0.1:8787".to_owned(),
        },
    };
    let tok: Option<String> = match token {
        Some(t) => Some(t),
        None => match read_kv(client, "token") {
            Some(t) => Some(t),
            None => read_kv(local, "token"),
        },
    };
    match tok {
        Some(token) => {
            let base: Vec<char> = trimmed_end(&chars_of(srv.as_str()), Class::Only('/'));
            Ok(Config { server: string_of(&base), token })
        },
        None => Err(
            cat3("no token: pass --token, or create ", path, " with server = \"http://host:8787\" and token = \"...\""),
        ),
    }
}

/// The client's file.
pub open spec fn config_text(server: Seq<char>, token: Seq<char>) -> Seq<char> {
    "server = \""@ + server + "\"\ntoken = \""@ + token + "\"\n"@
}

/// The text of the client's file for a configuration.
pub fn save(cfg: &Config) -> (r: String)
    ensures
        r@ == config_text(cfg.server@, cfg.token@),
{
    cat3(cat3("server = \"", cfg.server.as_str(), "\"\ntoken = \"").as_str(), cfg.token.as_str(), "\"\n")
}

} // verus!
