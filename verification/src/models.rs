//! A connection: one remote target.

use crate::text::{decimal, push_decimal};
use vstd::prelude::*;
use vstd::string::*;

verus! {

/// One remote target.
#[derive(Debug)]
pub struct Connection {
    /// Display label. Need not be unique.
    pub name: String,
    pub user: String,
    pub host: String,
    /// `None` leaves the port to the remote shell.
    pub port: Option<u16>,
    /// Terminal type; `None` stands for `xterm-256color` at connect time.
    pub term: Option<String>,
}

/// What a `Connection` holds, as mathematical values.
pub struct ConnectionView {
    pub name: Seq<char>,
    pub user: Seq<char>,
    pub host: Seq<char>,
    pub port: Option<u16>,
    pub term: Option<Seq<char>>,
}

impl View for Connection {
    type V = ConnectionView;

    open spec fn view(&self) -> ConnectionView {
        ConnectionView {
            name: self.name@,
            user: self.user@,
            host: self.host@,
            port: self.port,
            term: match self.term {
                Some(t) => Some(t@),
                None => None,
            },
        }
    }
}

impl Clone for Connection {
    fn clone(&self) -> (c: Self)
        ensures
            c@ == self@,
    {
        Connection {
            name: self.name.clone(),
            user: self.user.clone(),
            host: self.host.clone(),
            port: self.port,
            term: match &self.term {
                Some(t) => Some(t.clone()),
                None => None,
            },
        }
    }
}

/// The text by which a connection is searched: `name  user@host`, followed
/// by `:port` where a port is set.
pub open spec fn label_of(c: ConnectionView) -> Seq<char> {
    c.name + seq![' ', ' '] + c.user + seq!['@'] + c.host + port_suffix(c.port)
}

/// `:` and the port in decimal; nothing where no port is set.
pub open spec fn port_suffix(port: Option<u16>) -> Seq<char> {
    match port {
        Some(p) => seq![':'] + decimal(p as nat),
        None => Seq::empty(),
    }
}

/// Appends `:` and the port in decimal to `out`, where a port is set.
pub fn push_port(out: &mut String, port: Option<u16>)
    ensures
        final(out)@ == old(out)@ + port_suffix(port),
{
    match port {
        Some(p) => {
            out.push(':');
            push_decimal(out, p as u64);
            assert(out@ =~= old(out)@ + (seq![':'] + decimal(p as nat)));
        },
        None => {
            assert(out@ =~= old(out)@ + Seq::<char>::empty());
        },
    }
}

/// The views of a sequence of connections.
pub open spec fn connection_views(v: Seq<Connection>) -> Seq<ConnectionView> {
    v.map_values(|c: Connection| c@)
}

impl Connection {
    /// The text by which this connection is searched.
    pub fn label(&self) -> (s: String)
        ensures
            s@ == label_of(self@),
    {
        let mut s = self.name.clone();
        s.push(' ');
        s.push(' ');
        s.append(self.user.as_str());
        s.push('@');
        s.append(self.host.as_str());
        push_port(&mut s, self.port);
        assert(s@ =~= label_of(self@));
        s
    }
}

} // verus!
