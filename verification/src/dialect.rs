//! Per-backend SQL rendering rules: bound-parameter placeholder tokens,
//! paging clause forms, and identifier quoting.

use vstd::prelude::*;

use crate::numtext::dec_seq;
use crate::numtext::u64_to_dec;
use vstd::string::*;

verus! {

/// A supported relational backend.
#[derive(Clone, Copy, PartialEq, Eq, Structural, Debug)]
pub enum Backend {
    MySql,
    Postgres,
    Sqlite,
    Mssql,
}

/// Whether the backend's placeholder token is the same for every bound
/// parameter (`?`), as opposed to carrying the parameter's number.
pub open spec fn positional_placeholders(b: Backend) -> bool {
    b == Backend::MySql || b == Backend::Sqlite
}

/// The placeholder token for the `k`-th bound parameter, counting
/// from one in emission order.
pub open spec fn placeholder_text(b: Backend, k: nat) -> Seq<char> {
    match b {
        Backend::MySql => "?"@,
        Backend::Sqlite => "?"@,
        Backend::Postgres => "$"@ + dec_seq(k),
        Backend::Mssql => "@p"@ + dec_seq(k),
    }
}

/// The backend's opening identifier-quote character.
pub open spec fn quote_open(b: Backend) -> char {
    match b {
        Backend::MySql => '`',
        Backend::Postgres => '"',
        Backend::Sqlite => '"',
        Backend::Mssql => '[',
    }
}

/// The backend's closing identifier-quote character.
pub open spec fn quote_close(b: Backend) -> char {
    match b {
        Backend::MySql => '`',
        Backend::Postgres => '"',
        Backend::Sqlite => '"',
        Backend::Mssql => ']',
    }
}

/// Quote an identifier with the backend's quoting characters.
pub fn quote_ident(b: &Backend, name: &str) -> (r: String)
    ensures
        r@ == seq![quote_open(*b)] + name@ + seq![quote_close(*b)],
{
    let open: &'static str = match b {
        Backend::MySql => "`",
        Backend::Postgres => "\"",
        Backend::Sqlite => "\"",
        Backend::Mssql => "[",
    };
    let close: &'static str = match b {
        Backend::MySql => "`",
        Backend::Postgres => "\"",
        Backend::Sqlite => "\"",
        Backend::Mssql => "]",
    };
    proof {
        reveal_strlit("`");
        reveal_strlit("\"");
        reveal_strlit("[");
        reveal_strlit("]");
    }
    let mut r = open.to_owned();
    r.append(name);
    r.append(close);
    proof {
        assert(r@ =~= seq![quote_open(*b)] + name@ + seq![quote_close(*b)]);
    }
    r
}

/// Emit the placeholder token for the `k`-th bound parameter.
pub fn push_placeholder(out: &mut String, b: &Backend, k: usize)
    ensures
        final(out)@ == old(out)@ + placeholder_text(*b, k as nat),
{
    match b {
        Backend::MySql => out.append("?"),
        Backend::Sqlite => out.append("?"),
        Backend::Postgres => {
            out.append("$");
            let d = u64_to_dec(k as u64);
            out.append(d.as_str());
        },
        Backend::Mssql => {
            out.append("@p");
            let d = u64_to_dec(k as u64);
            out.append(d.as_str());
        },
    }
}

} // verus!
