//! The connection to the Immich server: its base address and the API key.

use vstd::prelude::*;
use crate::state::ImmichApp;
use crate::text::{
    chars_of, has_prefix, is_ws, trim_end, trim_start, owned, push_all, push_str_chars, starts_with, string_of, strip_end,
    strip_end_char, trim, trim_chars,
};

verus! {

/// The server address without surrounding whitespace and trailing slashes.
pub open spec fn server_core(server: Seq<char>) -> Seq<char> {
    strip_end_char(trim(server), '/')
}

/// The base address of the server: the address as entered, trimmed and
/// without trailing slashes, with `http://` in front where it names no
/// scheme.
pub open spec fn base_url_spec(server: Seq<char>) -> Result<Seq<char>, Seq<char>> {
    let s = server_core(server);
    if s.len() == 0 {
        Err("Bitte Immich-Serveradresse eingeben."@)
    } else if has_prefix(s, "http://"@) || has_prefix(s, "https://"@) {
        Ok(s)
    } else {
        Ok("http://"@ + s)
    }
}

/// The API key without surrounding whitespace, where it is not empty.
pub open spec fn api_key_spec(key: Seq<char>) -> Result<Seq<char>, Seq<char>> {
    if trim(key).len() == 0 {
        Err("Bitte API-Key eingeben."@)
    } else {
        Ok(trim(key))
    }
}

/// The text views of a result of texts.
pub open spec fn text_result(r: Result<String, String>) -> Result<Seq<char>, Seq<char>> {
    match r {
        Ok(s) => Ok(s@),
        Err(e) => Err(e@),
    }
}

/// What is left after stripping a character from the end does not end in
/// it.
proof fn lemma_strip_end_last(s: Seq<char>, c: char)
    ensures
        strip_end_char(s, c).len() > 0 ==> strip_end_char(s, c).last() != c,
        strip_end_char(s, c).len() <= s.len(),
    decreases s.len(),
{
    if s.len() > 0 && s.last() == c {
        lemma_strip_end_last(s.drop_last(), c);
    }
}

/// A base address is its own base address: it begins with `http://` or
/// `https://`, does not end with `/`, and where it does not end with
/// whitespace, entering it as the server gives it back unchanged. (A server
/// entered as `a /` gives `http://a `, whose trailing space a second pass
/// trims away.)
pub proof fn lemma_base_url_stable(server: Seq<char>, u: Seq<char>)
    requires
        base_url_spec(server) == Ok::<Seq<char>, Seq<char>>(u),
    ensures
        has_prefix(u, "http://"@) || has_prefix(u, "https://"@),
        u.len() > 0 && u.last() != '/',
        !is_ws(u.last()) ==> base_url_spec(u) == Ok::<Seq<char>, Seq<char>>(u),
{
    reveal_strlit("http://");
    reveal_strlit("https://");
    let core = server_core(server);
    lemma_strip_end_last(trim(server), '/');
    assert(core.len() > 0);
    if !(has_prefix(core, "http://"@) || has_prefix(core, "https://"@)) {
        assert(u == "http://"@ + core);
        assert(u.subrange(0, 7) =~= "http://"@);
        assert(u.last() == core.last());
    } else if has_prefix(core, "http://"@) {
        assert(u == core);
        assert(u[0] == u.subrange(0, 7)[0]);
    } else {
        assert(u == core);
        assert(u[0] == u.subrange(0, 8)[0]);
    }
    assert(u[0] == 'h');
    assert(!is_ws(u[0]));
    if !is_ws(u.last()) {
        assert(trim_start(u) == u);
        assert(trim_end(u) == u);
        assert(trim(u) == u);
        assert(strip_end_char(u, '/') == u);
        assert(server_core(u) == u);
    }
}

impl ImmichApp {
    /// The base address of the server, or the message that asks for one.
    pub fn base_url(&self) -> (r: Result<String, String>)
        ensures
            text_result(r) == base_url_spec(self.server@),
    {
        let s = strip_end(&trim_chars(&chars_of(self.server.as_str())), '/');
        if s.len() == 0 {
            return Err(owned("Bitte Immich-Serveradresse eingeben."));
        }
        if starts_with(&s, "http://") || starts_with(&s, "https://") {
            Ok(string_of(&s))
        } else {
            let mut v: Vec<char> = Vec::new();
            push_str_chars(&mut v, "http://");
            push_all(&mut v, &s);
            Ok(string_of(&v))
        }
    }

    /// The API key, trimmed, or the message that asks for one.
    pub fn ensure_api_key(&self) -> (r: Result<String, String>)
        ensures
            text_result(r) == api_key_spec(self.api_key@),
    {
        let k = trim_chars(&chars_of(self.api_key.as_str()));
        if k.len() == 0 {
            Err(owned("Bitte API-Key eingeben."))
        } else {
            Ok(string_of(&k))
        }
    }
}

} // verus!
