//! Parsing of the capability information reported by the external compiler:
//! one file-name line per supported crate type (prefix and suffix separated
//! by a three-underscore delimiter), diagnostics naming unsupported crate
//! types, and — when the combined query succeeded — a sysroot line followed
//! by the active configuration predicates.

use vstd::prelude::*;

use crate::cfgs::{parse_cfg, parse_cfg_spec, Cfg, CfgView};
use crate::model::{ContextError, Kind};
use crate::strings::{
    contains_str, contains_sub, find_sub_from, find_sub_idx, has_sub_at, lines_spec, split_lines,
    trim, trim_spec, views_of,
};

verus! {

/// The delimiter separating file-name prefix and suffix in probe output.
pub open spec fn delim3() -> Seq<char> {
    "___"@
}

/// A diagnostic line declares this crate type unsupported.
pub open spec fn diag_matches(line: Seq<char>, crate_type: Seq<char>) -> bool {
    (contains_sub(line, "unsupported crate type"@) || contains_sub(line, "unknown crate type"@))
        && contains_sub(line, crate_type)
}

/// The error stream declares this crate type unsupported.
pub open spec fn not_supported_diag(stderr: Seq<char>, crate_type: Seq<char>) -> bool {
    exists|i: int|
        0 <= i < lines_spec(stderr).len() && diag_matches(
            #[trigger] lines_spec(stderr)[i],
            crate_type,
        )
}

/// Does the error stream contain a diagnostic naming this crate type as
/// unsupported or unknown?
pub fn crate_type_not_supported(crate_type: &str, stderr: &str) -> (r: bool)
    ensures
        r == not_supported_diag(stderr@, crate_type@),
{
    let ls = split_lines(stderr);
    let n = ls.len();
    let mut i: usize = 0;
    while i < n
        invariant
            n == ls@.len(),
            i <= n,
            views_of(ls@) =~= lines_spec(stderr@),
            forall|k: int| 0 <= k < i ==> !diag_matches(lines_spec(stderr@)[k], crate_type@),
        decreases n - i,
    {
        let line = ls[i].as_str();
        let flagged = contains_str(line, "unsupported crate type") || contains_str(
            line,
            "unknown crate type",
        );
        if flagged && contains_str(line, crate_type) {
            proof {
                assert(lines_spec(stderr@)[i as int] == line@);
            }
            return true;
        }
        i = i + 1;
    }
    false
}

/// What a well-formed crate-type file-name line denotes: the line is trimmed,
/// the prefix is the text before the first delimiter, and the suffix is the
/// text from there to the next delimiter or the end. A line without a
/// delimiter denotes nothing.
pub open spec fn parse_type_line_spec(line: Seq<char>) -> Option<(Seq<char>, Seq<char>)> {
    let t = trim_spec(line);
    let i = find_sub_from(t, delim3(), 0);
    if i == t.len() {
        None
    } else {
        let rest = t.subrange(i + 3, t.len() as int);
        let j = find_sub_from(rest, delim3(), 0);
        Some((t.subrange(0, i), rest.subrange(0, j)))
    }
}

/// Parse the file-name information for one crate type.
///
/// `lines` is the compiler's standard output split into lines and `pos` the
/// next unread line. A crate type named by a diagnostic consumes no line and
/// yields no file-name information; otherwise the next line must exist and
/// carry the delimiter.
pub fn parse_crate_type(
    crate_type: &str,
    stderr: &str,
    lines: &Vec<String>,
    pos: usize,
) -> (r: Result<(Option<(String, String)>, usize), ContextError>)
    ensures
        match r {
            Ok((res, np)) => match res {
                Some((p, x)) => !not_supported_diag(stderr@, crate_type@) && pos < lines@.len()
                    && np == pos + 1 && parse_type_line_spec(lines@[pos as int]@) == Some(
                    (p@, x@),
                ),
                None => not_supported_diag(stderr@, crate_type@) && np == pos,
            },
            Err(e) => !not_supported_diag(stderr@, crate_type@) && match e {
                ContextError::MalformedCrateTypeOutput { crate_type: c } => c@ == crate_type@
                    && pos >= lines@.len(),
                ContextError::MalformedFileNamesOutput => pos < lines@.len()
                    && parse_type_line_spec(lines@[pos as int]@) is None,
                _ => false,
            },
        },
{
    if crate_type_not_supported(crate_type, stderr) {
        return Ok((None, pos));
    }
    if pos >= lines.len() {
        return Err(
            ContextError::MalformedCrateTypeOutput { crate_type: crate_type.to_owned() },
        );
    }
    let t = trim(lines[pos].as_str());
    let n: usize = t.unicode_len();
    proof {
        reveal_strlit("___");
    }
    let i = find_sub_idx(t, "___");
    if i == n {
        return Err(ContextError::MalformedFileNamesOutput);
    }
    proof {
        lemma_find_sub_from_found(t@, delim3(), 0);
    }
    let prefix = t.substring_char(0, i).to_owned();
    let rest = t.substring_char(i + 3, n);
    let j = find_sub_idx(rest, "___");
    let suffix = rest.substring_char(0, j).to_owned();
    Ok((Some((prefix, suffix)), pos + 1))
}

/// When the first-occurrence scan reports a position inside the text, the
/// needle indeed occurs there.
proof fn lemma_find_sub_from_found(s: Seq<char>, sub: Seq<char>, k: int)
    requires
        0 <= k,
    ensures
        find_sub_from(s, sub, k) < s.len() ==> has_sub_at(s, sub, find_sub_from(s, sub, k)),
    decreases s.len() - k,
{
    if k >= s.len() {
    } else if has_sub_at(s, sub, k) {
    } else {
        lemma_find_sub_from_found(s, sub, k + 1);
    }
}

/// Mathematical view of the probed facts for one architecture triple.
pub struct TargetInfoView {
    pub crate_types: Seq<(Seq<char>, Option<(Seq<char>, Seq<char>)>)>,
    pub cfg: Option<Seq<CfgView>>,
    pub sysroot_libdir: Option<Seq<char>>,
}

/// Compiler-reported facts for one architecture triple: per crate type the
/// file-name prefix/suffix (absent when unsupported on this triple), the
/// active configuration predicates, and the sysroot library directory. The
/// latter two are absent when only the plain file-name query succeeded.
pub struct TargetInfo {
    pub crate_types: Vec<(String, Option<(String, String)>)>,
    pub cfg: Option<Vec<Cfg>>,
    pub sysroot_libdir: Option<String>,
}

/// View of one crate-type table entry.
pub open spec fn ct_entry_view(e: (String, Option<(String, String)>)) -> (
    Seq<char>,
    Option<(Seq<char>, Seq<char>)>,
) {
    (
        e.0@,
        match e.1 {
            Some(px) => Some((px.0@, px.1@)),
            None => None,
        },
    )
}

/// View of the crate-type table.
pub open spec fn ct_views(v: Seq<(String, Option<(String, String)>)>) -> Seq<
    (Seq<char>, Option<(Seq<char>, Seq<char>)>),
> {
    v.map_values(|e: (String, Option<(String, String)>)| ct_entry_view(e))
}

/// View of the active configuration list.
pub open spec fn cfg_views(v: Seq<Cfg>) -> Seq<CfgView> {
    v.map_values(|c: Cfg| c@)
}

impl View for TargetInfo {
    type V = TargetInfoView;

    open spec fn view(&self) -> TargetInfoView {
        TargetInfoView {
            crate_types: ct_views(self.crate_types@),
            cfg: match self.cfg {
                Some(v) => Some(cfg_views(v@)),
                None => None,
            },
            sysroot_libdir: match self.sysroot_libdir {
                Some(s) => Some(s@),
                None => None,
            },
        }
    }
}

/// The fixed, ordered list of crate types probed for every triple.
pub open spec fn known_type_views() -> Seq<Seq<char>> {
    seq!["bin"@, "rlib"@, "dylib"@, "cdylib"@, "staticlib"@, "proc-macro"@]
}

/// The fixed, ordered list of crate types probed for every triple.
pub fn known_crate_types() -> (r: Vec<String>)
    ensures
        views_of(r@) =~= known_type_views(),
{
    let mut v: Vec<String> = Vec::new();
    v.push("bin".to_owned());
    v.push("rlib".to_owned());
    v.push("dylib".to_owned());
    v.push("cdylib".to_owned());
    v.push("staticlib".to_owned());
    v.push("proc-macro".to_owned());
    v
}

/// The sysroot library directory for a kind: the host uses the sysroot's
/// platform binary/library subdirectory, the target its architecture-specific
/// compiled-library path.
pub open spec fn sysroot_libdir_spec(
    kind: Kind,
    sysroot: Seq<char>,
    triple: Seq<char>,
    windows_host: bool,
) -> Seq<char> {
    match kind {
        Kind::Host => if windows_host {
            sysroot + "/bin"@
        } else {
            sysroot + "/lib"@
        },
        Kind::Target => sysroot + "/lib/rustlib/"@ + triple + "/lib"@,
    }
}

/// Compute the sysroot library directory for a kind.
pub fn sysroot_libdir(kind: Kind, sysroot: &str, triple: &str, windows_host: bool) -> (r: String)
    ensures
        r@ == sysroot_libdir_spec(kind, sysroot@, triple@, windows_host),
{
    let mut out = sysroot.to_owned();
    match kind {
        Kind::Host => {
            if windows_host {
                out.append("/bin");
            } else {
                out.append("/lib");
            }
        },
        Kind::Target => {
            out.append("/lib/rustlib/");
            out.append(triple);
            out.append("/lib");
        },
    }
    out
}

/// One step of the crate-type table parse: results accumulated for the types
/// before `k`, reading at line `pos`.
pub open spec fn parse_types_loop(
    lines: Seq<Seq<char>>,
    stderr: Seq<char>,
    types: Seq<Seq<char>>,
    k: int,
    pos: int,
    acc: Seq<Option<(Seq<char>, Seq<char>)>>,
) -> Option<(Seq<Option<(Seq<char>, Seq<char>)>>, int)>
    decreases types.len() - k,
{
    if k < 0 || k >= types.len() {
        Some((acc, pos))
    } else if not_supported_diag(stderr, types[k]) {
        parse_types_loop(lines, stderr, types, k + 1, pos, acc.push(None))
    } else if !(0 <= pos < lines.len()) {
        None
    } else {
        match parse_type_line_spec(lines[pos]) {
            Some(px) => parse_types_loop(lines, stderr, types, k + 1, pos + 1, acc.push(Some(px))),
            None => None,
        }
    }
}

/// One step of the configuration-line parse.
pub open spec fn parse_cfgs_loop(ls: Seq<Seq<char>>, k: int, acc: Seq<CfgView>) -> Option<
    Seq<CfgView>,
>
    decreases ls.len() - k,
{
    if k < 0 || k >= ls.len() {
        Some(acc)
    } else {
        match parse_cfg_spec(ls[k]) {
            Some(c) => parse_cfgs_loop(ls, k + 1, acc.push(c)),
            None => None,
        }
    }
}

/// What the whole probe output denotes for one kind: the crate-type table in
/// request order and, when the combined query succeeded (`has_extra`), the
/// sysroot library directory and the active configuration predicates read
/// from the remaining lines. `None` is a malformed output.
pub open spec fn probe_spec(
    kind: Kind,
    triple: Seq<char>,
    has_extra: bool,
    windows_host: bool,
    stdout: Seq<char>,
    stderr: Seq<char>,
) -> Option<TargetInfoView> {
    let lines = lines_spec(stdout);
    let types = known_type_views();
    match parse_types_loop(lines, stderr, types, 0, 0, Seq::empty()) {
        None => None,
        Some((rs, pos)) => {
            let table = Seq::new(types.len(), |i: int| (types[i], rs[i]));
            if !has_extra {
                Some(TargetInfoView { crate_types: table, cfg: None, sysroot_libdir: None })
            } else if !(0 <= pos < lines.len()) {
                None
            } else {
                match parse_cfgs_loop(lines, pos + 1, Seq::empty()) {
                    None => None,
                    Some(cfgs) => Some(
                        TargetInfoView {
                            crate_types: table,
                            cfg: Some(cfgs),
                            sysroot_libdir: Some(
                                sysroot_libdir_spec(kind, lines[pos], triple, windows_host),
                            ),
                        },
                    ),
                }
            }
        },
    }
}

/// Parse the compiler's probe output for one kind.
///
/// `has_extra` says whether the combined query (file names, sysroot, active
/// configuration) succeeded; when false only the file-name lines are read and
/// sysroot/configuration are recorded as unavailable.
pub fn parse_probe_output(
    kind: Kind,
    triple: &str,
    has_extra: bool,
    windows_host: bool,
    stdout: &str,
    stderr: &str,
) -> (r: Result<TargetInfo, ContextError>)
    ensures
        match r {
            Ok(info) => probe_spec(kind, triple@, has_extra, windows_host, stdout@, stderr@)
                == Some(info@),
            Err(e) => probe_spec(kind, triple@, has_extra, windows_host, stdout@, stderr@)
                is None && {
                let lines = lines_spec(stdout@);
                let tl = parse_types_loop(lines, stderr@, known_type_views(), 0, 0, Seq::empty());
                match e {
                    ContextError::MalformedCrateTypeOutput { .. } => tl is None,
                    ContextError::MalformedFileNamesOutput => tl is None,
                    ContextError::MissingSysroot => has_extra && (tl matches Some(tp) && tp.1
                        >= lines.len()),
                    ContextError::MalformedCfgLine { .. } => has_extra && (tl matches Some(tp)
                        && 0 <= tp.1 < lines.len() && parse_cfgs_loop(
                        lines,
                        tp.1 + 1,
                        Seq::empty(),
                    ) is None),
                    _ => false,
                }
            },
        },
{
    let lines = split_lines(stdout);
    let types = known_crate_types();
    let ghost vls = lines_spec(stdout@);
    let ghost vts = known_type_views();
    let mut results: Vec<(String, Option<(String, String)>)> = Vec::new();
    let mut pos: usize = 0;
    let mut k: usize = 0;
    proof {
        assert(raw_results(results@) =~= Seq::<Option<(Seq<char>, Seq<char>)>>::empty());
    }
    while k < 6
        invariant
            vls == lines_spec(stdout@),
            vts == known_type_views(),
            types@.len() == 6,
            vts.len() == 6,
            views_of(types@) =~= vts,
            views_of(lines@) =~= vls,
            k <= 6,
            pos <= lines@.len(),
            results@.len() == k,
            forall|i: int| 0 <= i < k ==> (#[trigger] results@[i]).0@ == vts[i],
            parse_types_loop(vls, stderr@, vts, 0, 0, Seq::empty()) == parse_types_loop(
                vls,
                stderr@,
                vts,
                k as int,
                pos as int,
                raw_results(results@),
            ),
        decreases 6 - k,
    {
        let ct = types[k].as_str();
        match parse_crate_type(ct, stderr, &lines, pos) {
            Ok((res, np)) => {
                let name = types[k].clone();
                proof {
                    assert(name@ == vts[k as int]);
                    let old_raw = raw_results(results@);
                    match res {
                        Some((ref p, ref x)) => {
                            assert(raw_results(results@.push((name, res))) =~= old_raw.push(
                                Some((p@, x@)),
                            ));
                        },
                        None => {
                            assert(raw_results(results@.push((name, res))) =~= old_raw.push(
                                None,
                            ));
                        },
                    }
                }
                results.push((name, res));
                pos = np;
            },
            Err(e) => {
                proof {
                    if (pos as int) < lines@.len() {
                        assert(views_of(lines@)[pos as int] == lines@[pos as int]@);
                    }
                    assert(parse_types_loop(
                        vls,
                        stderr@,
                        vts,
                        k as int,
                        pos as int,
                        raw_results(results@),
                    ) is None);
                }
                return Err(e);
            },
        }
        k = k + 1;
    }
    if !has_extra {
        let info = TargetInfo { crate_types: results, cfg: None, sysroot_libdir: None };
        proof {
            lemma_table_shape(info@.crate_types, vts, raw_results(results@));
        }
        return Ok(info);
    }
    if pos >= lines.len() {
        return Err(ContextError::MissingSysroot);
    }
    let sys = lines[pos].as_str();
    let libdir = sysroot_libdir(kind, sys, triple, windows_host);
    let mut cfgs: Vec<Cfg> = Vec::new();
    let mut j: usize = pos + 1;
    proof {
        assert(crate::probe::cfg_views(cfgs@) =~= Seq::<CfgView>::empty());
    }
    while j < lines.len()
        invariant
            has_extra,
            vls == lines_spec(stdout@),
            vts == known_type_views(),
            views_of(lines@) =~= vls,
            pos < vls.len(),
            pos + 1 <= j <= lines@.len(),
            parse_types_loop(vls, stderr@, vts, 0, 0, Seq::empty()) == Some(
                (raw_results(results@), pos as int),
            ),
            forall|i: int| 0 <= i < results@.len() ==> (#[trigger] results@[i]).0@ == vts[i],
            results@.len() == 6,
            parse_cfgs_loop(vls, pos + 1, Seq::empty()) == parse_cfgs_loop(
                vls,
                j as int,
                cfg_views(cfgs@),
            ),
        decreases lines@.len() - j,
    {
        match parse_cfg(lines[j].as_str()) {
            Ok(c) => {
                proof {
                    assert(cfg_views(cfgs@.push(c)) =~= cfg_views(cfgs@).push(c@));
                }
                cfgs.push(c);
            },
            Err(e) => {
                proof {
                    assert(views_of(lines@)[j as int] == lines@[j as int]@);
                    assert(parse_cfgs_loop(vls, j as int, cfg_views(cfgs@)) is None);
                }
                return Err(e);
            },
        }
        j = j + 1;
    }
    let info = TargetInfo {
        crate_types: results,
        cfg: Some(cfgs),
        sysroot_libdir: Some(libdir),
    };
    proof {
        lemma_table_shape(info@.crate_types, vts, raw_results(results@));
    }
    Ok(info)
}

/// The `--crate-type` argument pairs for a list of crate types.
pub open spec fn crate_type_args_spec(types: Seq<Seq<char>>) -> Seq<Seq<char>>
    decreases types.len(),
{
    if types.len() == 0 {
        Seq::empty()
    } else {
        seq!["--crate-type"@, types[0]] + crate_type_args_spec(types.drop_first())
    }
}

proof fn lemma_crate_type_args_snoc(types: Seq<Seq<char>>, t: Seq<char>)
    ensures
        crate_type_args_spec(types.push(t)) =~= crate_type_args_spec(types) + seq![
            "--crate-type"@,
            t,
        ],
    decreases types.len(),
{
    if types.len() == 0 {
        assert(types.push(t)[0] == t);
        assert(crate_type_args_spec(Seq::<Seq<char>>::empty()) =~= Seq::<Seq<char>>::empty());
        assert(types.push(t).drop_first() =~= Seq::<Seq<char>>::empty());
        assert(seq!["--crate-type"@, t] + Seq::<Seq<char>>::empty() =~= seq![
            "--crate-type"@,
            t,
        ]);
        assert(crate_type_args_spec(types) + seq!["--crate-type"@, t] =~= seq![
            "--crate-type"@,
            t,
        ]);
    } else {
        assert(types.push(t)[0] == types[0]);
        assert(types.push(t).drop_first() =~= types.drop_first().push(t));
        lemma_crate_type_args_snoc(types.drop_first(), t);
        assert(seq!["--crate-type"@, types[0]] + (crate_type_args_spec(types.drop_first())
            + seq!["--crate-type"@, t]) =~= (seq!["--crate-type"@, types[0]]
            + crate_type_args_spec(types.drop_first())) + seq!["--crate-type"@, t]);
    }
}

/// The full argument list of one probe invocation: read from standard input,
/// print file names, pass the resolved flags, name the target triple for a
/// target-kind probe, list the known crate types in order, and ask for
/// sysroot and active configuration when the combined query is attempted.
pub open spec fn probe_args_spec(
    kind: Kind,
    triple: Seq<char>,
    flags: Seq<Seq<char>>,
    with_extra: bool,
) -> Seq<Seq<char>> {
    seq!["-"@, "--crate-name"@, "___"@, "--print=file-names"@] + flags + (match kind {
        Kind::Target => seq!["--target"@, triple],
        Kind::Host => Seq::<Seq<char>>::empty(),
    }) + crate_type_args_spec(known_type_views()) + (if with_extra {
        seq!["--print=sysroot"@, "--print=cfg"@]
    } else {
        Seq::<Seq<char>>::empty()
    })
}

/// Build the compiler argument list for one probe invocation.
pub fn probe_command_args(
    kind: Kind,
    triple: &str,
    flags: &Vec<String>,
    with_extra: bool,
) -> (r: Vec<String>)
    ensures
        views_of(r@) =~= probe_args_spec(kind, triple@, views_of(flags@), with_extra),
{
    let mut args: Vec<String> = Vec::new();
    args.push("-".to_owned());
    args.push("--crate-name".to_owned());
    args.push("___".to_owned());
    args.push("--print=file-names".to_owned());
    let ghost head = seq!["-"@, "--crate-name"@, "___"@, "--print=file-names"@];
    proof {
        assert(views_of(args@) =~= head);
    }
    let nf = flags.len();
    let mut i: usize = 0;
    while i < nf
        invariant
            nf == flags@.len(),
            i <= nf,
            views_of(args@) =~= head + views_of(flags@).take(i as int),
        decreases nf - i,
    {
        let f = flags[i].clone();
        proof {
            assert(f@ == flags@[i as int]@);
            assert(views_of(args@.push(f)) =~= views_of(args@).push(flags@[i as int]@));
            assert((head + views_of(flags@).take(i as int)).push(flags@[i as int]@) =~= head
                + views_of(flags@).take(i + 1));
        }
        args.push(f);
        i = i + 1;
    }
    proof {
        assert(views_of(flags@).take(nf as int) =~= views_of(flags@));
    }
    let ghost with_flags = head + views_of(flags@);
    match kind {
        Kind::Target => {
            args.push("--target".to_owned());
            args.push(triple.to_owned());
            proof {
                assert(views_of(args@) =~= with_flags + seq!["--target"@, triple@]);
            }
        },
        Kind::Host => {
            proof {
                assert(with_flags + Seq::<Seq<char>>::empty() =~= with_flags);
            }
        },
    }
    let ghost with_target = with_flags + (match kind {
        Kind::Target => seq!["--target"@, triple@],
        Kind::Host => Seq::<Seq<char>>::empty(),
    });
    proof {
        assert(views_of(args@) =~= with_target);
    }
    let types = known_crate_types();
    let nt = types.len();
    let mut k: usize = 0;
    proof {
        assert(crate_type_args_spec(known_type_views().take(0)) =~= Seq::<Seq<char>>::empty());
        assert(with_target + Seq::<Seq<char>>::empty() =~= with_target);
    }
    while k < nt
        invariant
            nt == types@.len(),
            k <= nt,
            views_of(types@) =~= known_type_views(),
            with_target == with_flags + (match kind {
                Kind::Target => seq!["--target"@, triple@],
                Kind::Host => Seq::<Seq<char>>::empty(),
            }),
            views_of(args@) =~= with_target + crate_type_args_spec(
                known_type_views().take(k as int),
            ),
        decreases nt - k,
    {
        let t = types[k].clone();
        let ghost tv = known_type_views()[k as int];
        let ghost pre = views_of(args@);
        proof {
            assert(t@ == tv);
        }
        args.push("--crate-type".to_owned());
        args.push(t);
        proof {
            assert(views_of(args@) =~= pre.push("--crate-type"@).push(tv));
            assert(pre.push("--crate-type"@).push(tv) =~= pre + seq!["--crate-type"@, tv]);
            assert(known_type_views().take(k + 1) =~= known_type_views().take(k as int).push(
                tv,
            ));
            lemma_crate_type_args_snoc(known_type_views().take(k as int), tv);
            assert((with_target + crate_type_args_spec(known_type_views().take(k as int)))
                + seq!["--crate-type"@, tv] =~= with_target + (crate_type_args_spec(
                known_type_views().take(k as int),
            ) + seq!["--crate-type"@, tv]));
            assert(views_of(args@) =~= with_target + crate_type_args_spec(
                known_type_views().take(k + 1),
            ));
        }
        k = k + 1;
    }
    proof {
        assert(known_type_views().take(nt as int) =~= known_type_views());
    }
    if with_extra {
        args.push("--print=sysroot".to_owned());
        args.push("--print=cfg".to_owned());
        proof {
            assert(views_of(args@) =~= (with_target + crate_type_args_spec(known_type_views()))
                + seq!["--print=sysroot"@, "--print=cfg"@]);
        }
    } else {
        proof {
            assert((with_target + crate_type_args_spec(known_type_views()))
                + Seq::<Seq<char>>::empty() =~= with_target + crate_type_args_spec(
                known_type_views(),
            ));
        }
    }
    args
}

/// The file-name results of the crate-type table, without the names.
pub open spec fn raw_results(v: Seq<(String, Option<(String, String)>)>) -> Seq<
    Option<(Seq<char>, Seq<char>)>,
> {
    v.map_values(
        |e: (String, Option<(String, String)>)|
            match e.1 {
                Some(px) => Some((px.0@, px.1@)),
                None => None,
            },
    )
}

/// A table whose names are the known types and whose results are `rs` is the
/// zip the probe specification builds.
proof fn lemma_table_shape(
    table: Seq<(Seq<char>, Option<(Seq<char>, Seq<char>)>)>,
    names: Seq<Seq<char>>,
    rs: Seq<Option<(Seq<char>, Seq<char>)>>,
)
    requires
        table.len() == names.len(),
        rs.len() == names.len(),
        forall|i: int| 0 <= i < table.len() ==> table[i].0 == names[i] && table[i].1 == rs[i],
    ensures
        table =~= Seq::new(names.len(), |i: int| (names[i], rs[i])),
{
}

} // verus!
