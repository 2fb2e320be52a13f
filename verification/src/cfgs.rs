//! Configuration predicates: the `key="value"` / flag predicates reported by
//! the compiler via its active-configuration listing, the parser for such
//! lines, platform predicates on dependencies, and `cfg(...)`-shaped
//! configuration section names.

use vstd::prelude::*;

use crate::model::ContextError;
use crate::strings::{find_char, is_ident, is_ident_spec, str_eq, trim, trim_spec};

verus! {

/// One configuration predicate: either a flag name or a `key="value"` pair.
#[derive(Clone, Debug)]
pub enum Cfg {
    Name(String),
    KeyPair(String, String),
}

/// Mathematical view of a configuration predicate.
pub enum CfgView {
    Name { name: Seq<char> },
    KeyPair { key: Seq<char>, value: Seq<char> },
}

impl View for Cfg {
    type V = CfgView;

    open spec fn view(&self) -> CfgView {
        match self {
            Cfg::Name(n) => CfgView::Name { name: n@ },
            Cfg::KeyPair(k, v) => CfgView::KeyPair { key: k@, value: v@ },
        }
    }
}

/// Equality of configuration predicates, decided by their views.
pub fn cfg_eq(a: &Cfg, b: &Cfg) -> (r: bool)
    ensures
        r == (a@ == b@),
{
    match (a, b) {
        (Cfg::Name(x), Cfg::Name(y)) => str_eq(x.as_str(), y.as_str()),
        (Cfg::KeyPair(k1, v1), Cfg::KeyPair(k2, v2)) => {
            let ke = str_eq(k1.as_str(), k2.as_str());
            let ve = str_eq(v1.as_str(), v2.as_str());
            ke && ve
        },
        _ => false,
    }
}

/// The predicate `c` is in the active configuration set.
pub open spec fn cfg_active(active: Seq<Cfg>, c: CfgView) -> bool {
    exists|i: int| 0 <= i < active.len() && active[i]@ == c
}

/// Membership of a predicate in the active configuration set.
pub fn cfg_in_set(active: &Vec<Cfg>, c: &Cfg) -> (r: bool)
    ensures
        r == cfg_active(active@, c@),
{
    let n = active.len();
    let mut i: usize = 0;
    while i < n
        invariant
            n == active@.len(),
            i <= n,
            forall|k: int| 0 <= k < i ==> active@[k]@ != c@,
        decreases n - i,
    {
        if cfg_eq(&active[i], c) {
            return true;
        }
        i = i + 1;
    }
    false
}

/// What a well-formed configuration-predicate line denotes: a bare identifier
/// is a flag predicate; `ident="text"` is a key/value predicate; anything
/// else is malformed.
pub open spec fn parse_cfg_spec(s: Seq<char>) -> Option<CfgView> {
    let p = crate::strings::find_char_from(s, '=', 0);
    if p == s.len() {
        if is_ident_spec(s) {
            Some(CfgView::Name { name: s })
        } else {
            None
        }
    } else {
        let key = s.subrange(0, p);
        let v = s.subrange(p + 1, s.len() as int);
        if is_ident_spec(key) && v.len() >= 2 && v[0] == '"' && v.last() == '"' {
            Some(CfgView::KeyPair { key, value: v.subrange(1, v.len() - 1) })
        } else {
            None
        }
    }
}

/// Parse one active-configuration line reported by the compiler.
pub fn parse_cfg(line: &str) -> (r: Result<Cfg, ContextError>)
    ensures
        match r {
            Ok(c) => parse_cfg_spec(line@) == Some(c@),
            Err(e) => parse_cfg_spec(line@) is None && (e matches ContextError::MalformedCfgLine {
                line: l,
            } && l@ == line@),
        },
{
    let n: usize = line.unicode_len();
    let p = find_char(line, '=');
    if p == n {
        if is_ident(line) {
            proof {
                assert(line@.subrange(0, n as int) =~= line@);
            }
            return Ok(Cfg::Name(line.to_owned()));
        }
    } else {
        let key = line.substring_char(0, p);
        let v = line.substring_char(p + 1, n);
        let vn: usize = v.unicode_len();
        if is_ident(key) && vn >= 2 && v.get_char(0) == '"' && v.get_char(vn - 1) == '"' {
            let value = v.substring_char(1, vn - 1);
            proof {
                assert(v@.last() == v@[vn - 1]);
            }
            return Ok(Cfg::KeyPair(key.to_owned(), value.to_owned()));
        }
    }
    Err(ContextError::MalformedCfgLine { line: line.to_owned() })
}

/// Platform predicate attached to a dependency: a literal triple name, or a
/// configuration predicate that must be active on the consuming side.
#[derive(Clone, Debug)]
pub enum Platform {
    Triple(String),
    Pred(Cfg),
}

/// Whether a platform predicate matches the given triple and active
/// configuration set; a configuration predicate never matches when the
/// active set is unavailable.
pub open spec fn platform_matches(p: Platform, triple: Seq<char>, active: Option<Seq<Cfg>>) -> bool {
    match p {
        Platform::Triple(t) => t@ == triple,
        Platform::Pred(c) => match active {
            Some(a) => cfg_active(a, c@),
            None => false,
        },
    }
}

/// Decide a platform predicate against a triple and active configuration set.
pub fn platform_matches_exec(p: &Platform, triple: &str, active: Option<&Vec<Cfg>>) -> (r: bool)
    ensures
        r == platform_matches(
            *p,
            triple@,
            match active {
                Some(a) => Some(a@),
                None => None,
            },
        ),
{
    match p {
        Platform::Triple(t) => str_eq(t.as_str(), triple),
        Platform::Pred(c) => match active {
            Some(a) => cfg_in_set(a, c),
            None => false,
        },
    }
}

/// What a configuration section name denotes: a `cfg(...)`-shaped name wraps
/// a configuration predicate (the inner text is trimmed); any other shape, or
/// an unparsable inner predicate, denotes nothing.
pub open spec fn section_pred_spec(name: Seq<char>) -> Option<CfgView> {
    if name.len() > 5 && name[0] == 'c' && name[1] == 'f' && name[2] == 'g' && name[3] == '('
        && name.last() == ')' {
        parse_cfg_spec(trim_spec(name.subrange(4, name.len() - 1)))
    } else {
        None
    }
}

/// Parse a configuration section name of the shape `cfg(<predicate>)`.
pub fn section_pred(name: &str) -> (r: Option<Cfg>)
    ensures
        match r {
            Some(c) => section_pred_spec(name@) == Some(c@),
            None => section_pred_spec(name@) is None,
        },
{
    let n: usize = name.unicode_len();
    if n > 5 && name.get_char(0) == 'c' && name.get_char(1) == 'f' && name.get_char(2) == 'g'
        && name.get_char(3) == '(' && name.get_char(n - 1) == ')' {
        proof {
            assert(name@.last() == name@[n - 1]);
        }
        let inner = trim(name.substring_char(4, n - 1));
        match parse_cfg(inner) {
            Ok(c) => Some(c),
            Err(_) => None,
        }
    } else {
        None
    }
}

} // verus!
