use vstd::prelude::*;
use vstd::string::{StrSliceExecFns, StringExecFns};

use crate::doc::{parse_line, spec_line_of, spec_split_lines, split_lines, Line, LineModel,
    ParsedLine, PropPair};
use crate::error::Error;
use crate::pkg::{dependencies_eq, Dependency, DependencyModel, NESTING_LIMIT};
use crate::strutil::{str_to_chars, string_eq_str};

verus! {

/// A package as a repository index or the installed pool describes it:
/// identity, the location of its payload, and its declared dependencies.
#[derive(Debug)]
pub struct OnlinePackage {
    pub name: String,
    pub version: String,
    pub url: String,
    pub depends: Vec<Dependency>,
}

impl Clone for OnlinePackage {
    fn clone(&self) -> (r: Self)
        ensures
            r@ == self@,
    {
        let depends = self.depends.clone();
        proof {
            assert(depends.deep_view() =~= self.depends.deep_view());
        }
        OnlinePackage {
            name: self.name.clone(),
            version: self.version.clone(),
            url: self.url.clone(),
            depends,
        }
    }
}

/// The mathematical value of an `OnlinePackage`.
pub struct OnlinePackageModel {
    pub name: Seq<char>,
    pub version: Seq<char>,
    pub url: Seq<char>,
    pub depends: Seq<DependencyModel>,
}

impl View for OnlinePackage {
    type V = OnlinePackageModel;

    open spec fn view(&self) -> OnlinePackageModel {
        OnlinePackageModel {
            name: self.name@,
            version: self.version@,
            url: self.url@,
            depends: self.depends.deep_view(),
        }
    }
}

impl DeepView for OnlinePackage {
    type V = OnlinePackageModel;

    open spec fn deep_view(&self) -> OnlinePackageModel {
        self.view()
    }
}

impl PartialEq for OnlinePackage {
    fn eq(&self, other: &OnlinePackage) -> (r: bool) {
        self.name == other.name && self.version == other.version && self.url == other.url
            && dependencies_eq(&self.depends, &other.depends)
    }
}

impl vstd::std_specs::cmp::PartialEqSpecImpl for OnlinePackage {
    open spec fn obeys_eq_spec() -> bool {
        true
    }

    open spec fn eq_spec(&self, other: &OnlinePackage) -> bool {
        self@ == other@
    }
}

impl Eq for OnlinePackage {}

/// What joining `ext` onto the URL `base` yields: the two are glued with
/// exactly one `/` between them unless one is already there.
pub open spec fn spec_push_onto_url(base: Seq<char>, ext: Seq<char>) -> Seq<char> {
    if (base.len() > 0 && base.last() == '/') || (ext.len() > 0 && ext.first() == '/') {
        base + ext
    } else {
        base + "/"@ + ext
    }
}

/// Join a path extension onto a base URL, inserting a separator only when
/// neither side already provides one.
pub fn push_onto_url(base: &str, ext: &str) -> (r: String)
    ensures
        r@ == spec_push_onto_url(base@, ext@),
{
    let bl = base.unicode_len();
    let el = ext.unicode_len();
    let glued = (bl > 0 && base.get_char(bl - 1) == '/') || (el > 0 && ext.get_char(0) == '/');
    if glued {
        base.to_owned().concat(ext)
    } else {
        base.to_owned().concat("/").concat(ext)
    }
}

/// The first value of a property with the given key, in entry order.
pub open spec fn spec_prop(props: Seq<(Seq<char>, Seq<char>)>, key: Seq<char>) -> Option<
    Seq<char>,
>
    decreases props.len(),
{
    if props.len() == 0 {
        None
    } else if props[0].0 == key {
        Some(props[0].1)
    } else {
        spec_prop(props.drop_first(), key)
    }
}

/// Look a property up by key, first match winning.
fn get_prop(props: &Vec<PropPair>, key: &str) -> (r: Option<String>)
    ensures
        match r {
            Some(v) => spec_prop(props.deep_view(), key@) == Some(v@),
            None => spec_prop(props.deep_view(), key@) is None,
        },
{
    let ghost whole = props.deep_view();
    let n = props.len();
    let mut i: usize = 0;
    proof {
        assert(whole.subrange(0, n as int) =~= whole);
    }
    while i < n
        invariant
            i <= n,
            n == props@.len(),
            whole == props.deep_view(),
            whole.len() == n,
            spec_prop(whole.subrange(i as int, n as int), key@) == spec_prop(whole, key@),
        decreases n - i,
    {
        let ghost rest = whole.subrange(i as int, n as int);
        proof {
            assert(rest.drop_first() =~= whole.subrange(i + 1, n as int));
            assert(rest[0] == whole[i as int]);
            assert(whole[i as int] == props@[i as int]@);
        }
        if string_eq_str(&props[i].key, key) {
            return Some(props[i].value.clone());
        }
        i += 1;
    }
    proof {
        assert(whole.subrange(n as int, n as int) =~= Seq::<(Seq<char>, Seq<char>)>::empty());
    }
    None
}

/// One repository-index package while its block is read.
pub struct PkgAccModel {
    pub name: Seq<char>,
    pub version: Seq<char>,
    pub url: Seq<char>,
    pub depends: Seq<DependencyModel>,
}

/// The executable form of `PkgAccModel`.
pub struct PkgAcc {
    pub name: String,
    pub version: String,
    pub url: String,
    pub depends: Vec<Dependency>,
}

impl View for PkgAcc {
    type V = PkgAccModel;

    open spec fn view(&self) -> PkgAccModel {
        PkgAccModel {
            name: self.name@,
            version: self.version@,
            url: self.url@,
            depends: self.depends.deep_view(),
        }
    }
}

/// The package an accumulator completes to.
pub open spec fn spec_complete(acc: PkgAccModel) -> OnlinePackageModel {
    OnlinePackageModel { name: acc.name, version: acc.version, url: acc.url, depends: acc.depends }
}

/// Where in the index document the reader stands.
pub enum RCtxModel {
    Top,
    SkipTop { depth: int },
    InPkg { acc: PkgAccModel },
    PkgSkip { acc: PkgAccModel, depth: int },
    InDep { acc: PkgAccModel, dname: Seq<char>, mask: Seq<char> },
    DepSkip { acc: PkgAccModel, dname: Seq<char>, mask: Seq<char>, depth: int },
}

/// The executable form of `RCtxModel`.
pub enum RCtx {
    Top,
    SkipTop { depth: usize },
    InPkg { acc: PkgAcc },
    PkgSkip { acc: PkgAcc, depth: usize },
    InDep { acc: PkgAcc, dname: String, mask: String },
    DepSkip { acc: PkgAcc, dname: String, mask: String, depth: usize },
}

impl View for RCtx {
    type V = RCtxModel;

    open spec fn view(&self) -> RCtxModel {
        match self {
            RCtx::Top => RCtxModel::Top,
            RCtx::SkipTop { depth } => RCtxModel::SkipTop { depth: *depth as int },
            RCtx::InPkg { acc } => RCtxModel::InPkg { acc: acc@ },
            RCtx::PkgSkip { acc, depth } => RCtxModel::PkgSkip {
                acc: acc@,
                depth: *depth as int,
            },
            RCtx::InDep { acc, dname, mask } => RCtxModel::InDep {
                acc: acc@,
                dname: dname@,
                mask: mask@,
            },
            RCtx::DepSkip { acc, dname, mask, depth } => RCtxModel::DepSkip {
                acc: acc@,
                dname: dname@,
                mask: mask@,
                depth: *depth as int,
            },
        }
    }
}

/// The index reader's whole state.
pub struct RStateModel {
    pub ret: Seq<OnlinePackageModel>,
    pub ctx: RCtxModel,
}

/// The executable form of `RStateModel`.
pub struct RState {
    pub ret: Vec<OnlinePackage>,
    pub ctx: RCtx,
}

impl View for RState {
    type V = RStateModel;

    open spec fn view(&self) -> RStateModel {
        RStateModel { ret: self.ret.deep_view(), ctx: self.ctx@ }
    }
}

/// One step of the index reader on one content line.
///
/// A top-level `package` node must carry `name`, `version` and `path`
/// properties; its `path` is joined onto the repository's base URL. Its
/// block may declare `depends` nodes exactly as a manifest does. Other
/// nodes are skipped, blocks and all.
pub open spec fn spec_rstep(st: RStateModel, lm: LineModel, base: Seq<char>) -> Option<
    RStateModel,
> {
    match st.ctx {
        RCtxModel::SkipTop { depth } => match lm {
            LineModel::Close => Some(
                RStateModel {
                    ctx: if depth <= 1 {
                        RCtxModel::Top
                    } else {
                        RCtxModel::SkipTop { depth: depth - 1 }
                    },
                    ..st
                },
            ),
            LineModel::Node { opens, .. } => if opens {
                if depth >= NESTING_LIMIT {
                    None
                } else {
                    Some(RStateModel { ctx: RCtxModel::SkipTop { depth: depth + 1 }, ..st })
                }
            } else {
                Some(st)
            },
        },
        RCtxModel::PkgSkip { acc, depth } => match lm {
            LineModel::Close => Some(
                RStateModel {
                    ctx: if depth <= 1 {
                        RCtxModel::InPkg { acc }
                    } else {
                        RCtxModel::PkgSkip { acc, depth: depth - 1 }
                    },
                    ..st
                },
            ),
            LineModel::Node { opens, .. } => if opens {
                if depth >= NESTING_LIMIT {
                    None
                } else {
                    Some(RStateModel { ctx: RCtxModel::PkgSkip { acc, depth: depth + 1 }, ..st })
                }
            } else {
                Some(RStateModel { ctx: RCtxModel::PkgSkip { acc, depth }, ..st })
            },
        },
        RCtxModel::DepSkip { acc, dname, mask, depth } => match lm {
            LineModel::Close => Some(
                RStateModel {
                    ctx: if depth <= 1 {
                        RCtxModel::InDep { acc, dname, mask }
                    } else {
                        RCtxModel::DepSkip { acc, dname, mask, depth: depth - 1 }
                    },
                    ..st
                },
            ),
            LineModel::Node { opens, .. } => if opens {
                if depth >= NESTING_LIMIT {
                    None
                } else {
                    Some(
                        RStateModel {
                            ctx: RCtxModel::DepSkip { acc, dname, mask, depth: depth + 1 },
                            ..st
                        },
                    )
                }
            } else {
                Some(RStateModel { ctx: RCtxModel::DepSkip { acc, dname, mask, depth }, ..st })
            },
        },
        RCtxModel::Top => match lm {
            LineModel::Close => None,
            LineModel::Node { name, args, props, opens } => {
                if name == "package"@ {
                    match spec_prop(props, "name"@) {
                        None => None,
                        Some(nm) => match spec_prop(props, "version"@) {
                            None => None,
                            Some(ver) => match spec_prop(props, "path"@) {
                                None => None,
                                Some(path) => {
                                    let acc = PkgAccModel {
                                        name: nm,
                                        version: ver,
                                        url: spec_push_onto_url(base, path),
                                        depends: Seq::empty(),
                                    };
                                    if opens {
                                        Some(
                                            RStateModel { ctx: RCtxModel::InPkg { acc }, ..st },
                                        )
                                    } else {
                                        Some(
                                            RStateModel {
                                                ret: st.ret.push(spec_complete(acc)),
                                                ctx: RCtxModel::Top,
                                            },
                                        )
                                    }
                                },
                            },
                        },
                    }
                } else {
                    if opens {
                        Some(RStateModel { ctx: RCtxModel::SkipTop { depth: 1 }, ..st })
                    } else {
                        Some(st)
                    }
                }
            },
        },
        RCtxModel::InPkg { acc } => match lm {
            LineModel::Close => Some(
                RStateModel { ret: st.ret.push(spec_complete(acc)), ctx: RCtxModel::Top },
            ),
            LineModel::Node { name, args, opens, .. } => {
                if name == "depends"@ {
                    if args.len() == 0 {
                        None
                    } else if opens {
                        Some(
                            RStateModel {
                                ctx: RCtxModel::InDep { acc, dname: args[0], mask: Seq::empty() },
                                ..st
                            },
                        )
                    } else {
                        Some(
                            RStateModel {
                                ctx: RCtxModel::InPkg {
                                    acc: PkgAccModel {
                                        depends: acc.depends.push(
                                            DependencyModel {
                                                name: args[0],
                                                version_mask: Seq::empty(),
                                            },
                                        ),
                                        ..acc
                                    },
                                },
                                ..st
                            },
                        )
                    }
                } else {
                    if opens {
                        Some(
                            RStateModel { ctx: RCtxModel::PkgSkip { acc, depth: 1 }, ..st },
                        )
                    } else {
                        Some(RStateModel { ctx: RCtxModel::InPkg { acc }, ..st })
                    }
                }
            },
        },
        RCtxModel::InDep { acc, dname, mask } => match lm {
            LineModel::Close => Some(
                RStateModel {
                    ctx: RCtxModel::InPkg {
                        acc: PkgAccModel {
                            depends: acc.depends.push(
                                DependencyModel { name: dname, version_mask: mask },
                            ),
                            ..acc
                        },
                    },
                    ..st
                },
            ),
            LineModel::Node { name, args, opens, .. } => {
                if name == "version"@ {
                    if args.len() == 0 {
                        None
                    } else if opens {
                        Some(
                            RStateModel {
                                ctx: RCtxModel::DepSkip { acc, dname, mask: args[0], depth: 1 },
                                ..st
                            },
                        )
                    } else {
                        Some(
                            RStateModel {
                                ctx: RCtxModel::InDep { acc, dname, mask: args[0] },
                                ..st
                            },
                        )
                    }
                } else {
                    if opens {
                        Some(
                            RStateModel {
                                ctx: RCtxModel::DepSkip { acc, dname, mask, depth: 1 },
                                ..st
                            },
                        )
                    } else {
                        Some(RStateModel { ctx: RCtxModel::InDep { acc, dname, mask }, ..st })
                    }
                }
            },
        },
    }
}

/// The index reader folded over the lines from `i` on.
pub open spec fn spec_rfold(
    lines: Seq<Seq<char>>,
    i: int,
    st: RStateModel,
    base: Seq<char>,
) -> Option<RStateModel>
    decreases lines.len() - i,
{
    if i >= lines.len() {
        Some(st)
    } else {
        match spec_line_of(lines[i]) {
            None => None,
            Some(None) => spec_rfold(lines, i + 1, st, base),
            Some(Some(lm)) => match spec_rstep(st, lm, base) {
                None => None,
                Some(st2) => spec_rfold(lines, i + 1, st2, base),
            },
        }
    }
}

/// What a repository index document means against a base URL: its
/// packages in order, or nothing if the document is invalid.
pub open spec fn spec_repo_index(s: Seq<char>, base: Seq<char>) -> Option<
    Seq<OnlinePackageModel>,
> {
    match spec_rfold(
        spec_split_lines(s),
        0,
        RStateModel { ret: Seq::empty(), ctx: RCtxModel::Top },
        base,
    ) {
        None => None,
        Some(st) => match st.ctx {
            RCtxModel::Top => Some(st.ret),
            _ => None,
        },
    }
}

/// One step of the index reader.
fn rstep(st: RState, l: Line, base: &str) -> (r: Option<RState>)
    ensures
        match r {
            Some(s2) => spec_rstep(st@, l@, base@) == Some(s2@),
            None => spec_rstep(st@, l@, base@) is None,
        },
{
    match st.ctx {
        RCtx::SkipTop { depth } => match l {
            Line::Close => Some(
                RState {
                    ctx: if depth <= 1 {
                        RCtx::Top
                    } else {
                        RCtx::SkipTop { depth: depth - 1 }
                    },
                    ..st
                },
            ),
            Line::Node { opens, .. } => if opens {
                if depth >= NESTING_LIMIT {
                    None
                } else {
                    Some(RState { ctx: RCtx::SkipTop { depth: depth + 1 }, ..st })
                }
            } else {
                Some(RState { ctx: RCtx::SkipTop { depth }, ..st })
            },
        },
        RCtx::PkgSkip { acc, depth } => match l {
            Line::Close => Some(
                RState {
                    ctx: if depth <= 1 {
                        RCtx::InPkg { acc }
                    } else {
                        RCtx::PkgSkip { acc, depth: depth - 1 }
                    },
                    ..st
                },
            ),
            Line::Node { opens, .. } => if opens {
                if depth >= NESTING_LIMIT {
                    None
                } else {
                    Some(RState { ctx: RCtx::PkgSkip { acc, depth: depth + 1 }, ..st })
                }
            } else {
                Some(RState { ctx: RCtx::PkgSkip { acc, depth }, ..st })
            },
        },
        RCtx::DepSkip { acc, dname, mask, depth } => match l {
            Line::Close => Some(
                RState {
                    ctx: if depth <= 1 {
                        RCtx::InDep { acc, dname, mask }
                    } else {
                        RCtx::DepSkip { acc, dname, mask, depth: depth - 1 }
                    },
                    ..st
                },
            ),
            Line::Node { opens, .. } => if opens {
                if depth >= NESTING_LIMIT {
                    None
                } else {
                    Some(RState { ctx: RCtx::DepSkip { acc, dname, mask, depth: depth + 1 }, ..st })
                }
            } else {
                Some(RState { ctx: RCtx::DepSkip { acc, dname, mask, depth }, ..st })
            },
        },
        RCtx::Top => match l {
            Line::Close => None,
            Line::Node { name, args: _, props, opens } => {
                if string_eq_str(&name, "package") {
                    let nm = get_prop(&props, "name");
                    let ver = get_prop(&props, "version");
                    let path = get_prop(&props, "path");
                    match nm {
                        None => None,
                        Some(nm) => match ver {
                            None => None,
                            Some(ver) => match path {
                                None => None,
                                Some(path) => {
                                    let url = push_onto_url(base, path.as_str());
                                    let acc = PkgAcc {
                                        name: nm,
                                        version: ver,
                                        url,
                                        depends: Vec::new(),
                                    };
                                    proof {
                                        assert(acc@.depends =~= Seq::<DependencyModel>::empty());
                                    }
                                    if opens {
                                        Some(RState { ctx: RCtx::InPkg { acc }, ..st })
                                    } else {
                                        let mut ret = st.ret;
                                        let ghost old_ret = ret.deep_view();
                                        let ghost accm = acc@;
                                        ret.push(
                                            OnlinePackage {
                                                name: acc.name,
                                                version: acc.version,
                                                url: acc.url,
                                                depends: acc.depends,
                                            },
                                        );
                                        proof {
                                            assert(ret.deep_view() =~= old_ret.push(
                                                spec_complete(accm),
                                            ));
                                        }
                                        Some(RState { ret, ctx: RCtx::Top })
                                    }
                                },
                            },
                        },
                    }
                } else {
                    if opens {
                        Some(RState { ctx: RCtx::SkipTop { depth: 1 }, ..st })
                    } else {
                        Some(RState { ctx: RCtx::Top, ..st })
                    }
                }
            },
        },
        RCtx::InPkg { acc } => match l {
            Line::Close => {
                let mut ret = st.ret;
                let ghost old_ret = ret.deep_view();
                let ghost accm = acc@;
                ret.push(
                    OnlinePackage {
                        name: acc.name,
                        version: acc.version,
                        url: acc.url,
                        depends: acc.depends,
                    },
                );
                proof {
                    assert(ret.deep_view() =~= old_ret.push(spec_complete(accm)));
                }
                Some(RState { ret, ctx: RCtx::Top })
            },
            Line::Node { name, args, props: _, opens } => {
                if string_eq_str(&name, "depends") {
                    if args.len() == 0 {
                        None
                    } else {
                        proof {
                            assert(args.deep_view()[0] == args@[0]@);
                        }
                        if opens {
                            Some(
                                RState {
                                    ctx: RCtx::InDep {
                                        acc,
                                        dname: args[0].clone(),
                                        mask: String::new(),
                                    },
                                    ..st
                                },
                            )
                        } else {
                            let mut depends = acc.depends;
                            let ghost old_depends = depends.deep_view();
                            depends.push(
                                Dependency { name: args[0].clone(), version_mask: String::new() },
                            );
                            proof {
                                assert(depends.deep_view() =~= old_depends.push(
                                    (DependencyModel {
                                        name: args@[0]@,
                                        version_mask: Seq::empty(),
                                    }),
                                ));
                            }
                            Some(
                                RState {
                                    ctx: RCtx::InPkg {
                                        acc: PkgAcc {
                                            name: acc.name,
                                            version: acc.version,
                                            url: acc.url,
                                            depends,
                                        },
                                    },
                                    ..st
                                },
                            )
                        }
                    }
                } else {
                    if opens {
                        Some(RState { ctx: RCtx::PkgSkip { acc, depth: 1 }, ..st })
                    } else {
                        Some(RState { ctx: RCtx::InPkg { acc }, ..st })
                    }
                }
            },
        },
        RCtx::InDep { acc, dname, mask } => match l {
            Line::Close => {
                let mut depends = acc.depends;
                let ghost old_depends = depends.deep_view();
                let ghost dn = dname@;
                let ghost mk = mask@;
                depends.push(Dependency { name: dname, version_mask: mask });
                proof {
                    assert(depends.deep_view() =~= old_depends.push(
                        (DependencyModel { name: dn, version_mask: mk }),
                    ));
                }
                Some(
                    RState {
                        ctx: RCtx::InPkg {
                            acc: PkgAcc {
                                name: acc.name,
                                version: acc.version,
                                url: acc.url,
                                depends,
                            },
                        },
                        ..st
                    },
                )
            },
            Line::Node { name, args, props: _, opens } => {
                if string_eq_str(&name, "version") {
                    if args.len() == 0 {
                        None
                    } else {
                        proof {
                            assert(args.deep_view()[0] == args@[0]@);
                        }
                        if opens {
                            Some(
                                RState {
                                    ctx: RCtx::DepSkip {
                                        acc,
                                        dname,
                                        mask: args[0].clone(),
                                        depth: 1,
                                    },
                                    ..st
                                },
                            )
                        } else {
                            Some(
                                RState {
                                    ctx: RCtx::InDep { acc, dname, mask: args[0].clone() },
                                    ..st
                                },
                            )
                        }
                    }
                } else {
                    if opens {
                        Some(RState { ctx: RCtx::DepSkip { acc, dname, mask, depth: 1 }, ..st })
                    } else {
                        Some(RState { ctx: RCtx::InDep { acc, dname, mask }, ..st })
                    }
                }
            },
        },
    }
}

/// Parses a repository index against the repository's base URL. `Ok`
/// exactly when the document is valid; the result then lists every
/// `package` node in order, its payload URL resolved against the base.
pub fn parse_repository_index(index: &str, base_url: &str) -> (r: Result<
    Vec<OnlinePackage>,
    Error,
>)
    ensures
        r matches Ok(v) ==> spec_repo_index(index@, base_url@) == Some(v.deep_view()),
        r is Ok <==> spec_repo_index(index@, base_url@) is Some,
        r matches Err(e) ==> e matches Error::Parse(_),
{
    let chars = str_to_chars(index);
    let lines = split_lines(&chars);
    let ghost lns = lines.deep_view();
    let n = lines.len();
    let mut st = RState { ret: Vec::new(), ctx: RCtx::Top };
    proof {
        assert(st@.ret =~= Seq::<OnlinePackageModel>::empty());
        assert(st@ == (RStateModel { ret: Seq::empty(), ctx: RCtxModel::Top }));
        assert(lns == spec_split_lines(index@));
        assert(lns.len() == n);
    }
    let mut i: usize = 0;
    while i < n
        invariant
            i <= n,
            n == lines@.len(),
            lns == lines.deep_view(),
            lns == spec_split_lines(index@),
            lns.len() == n,
            spec_rfold(lns, i as int, st@, base_url@) == spec_rfold(
                lns,
                0,
                RStateModel { ret: Seq::empty(), ctx: RCtxModel::Top },
                base_url@,
            ),
        decreases n - i,
    {
        proof {
            assert(lines.deep_view()[i as int] == lines@[i as int].deep_view());
            assert(lines@[i as int].deep_view() =~= lines@[i as int]@);
        }
        match parse_line(&lines[i]) {
            ParsedLine::Invalid => {
                return Err(
                    Error::Parse(String::from_str("Failed to parse document")),
                );
            },
            ParsedLine::Blank => {
            },
            ParsedLine::Content(l) => {
                match rstep(st, l, base_url) {
                    Some(s2) => {
                        st = s2;
                    },
                    None => {
                        return Err(
                            Error::Parse(String::from_str("Invalid package specification")),
                        );
                    },
                }
            },
        }
        i += 1;
    }
    match st.ctx {
        RCtx::Top => Ok(st.ret),
        _ => Err(Error::Parse(String::from_str("Unclosed block in repository index"))),
    }
}

/// Whether a line holds nothing but in-line whitespace.
pub open spec fn spec_line_blank(l: Seq<char>) -> bool {
    forall|i: int| 0 <= i < l.len() ==> crate::doc::spec_space(#[trigger] l[i])
}

/// The non-blank lines among the first `upto`, in order.
pub open spec fn spec_repo_list(lines: Seq<Seq<char>>, upto: int) -> Seq<Seq<char>>
    decreases upto,
{
    if upto <= 0 {
        seq![]
    } else {
        let rest = spec_repo_list(lines, upto - 1);
        if spec_line_blank(lines[upto - 1]) {
            rest
        } else {
            rest.push(lines[upto - 1])
        }
    }
}

/// The repository URLs a repository-list file names: one per line, blank
/// lines skipped.
pub fn parse_repositories(text: &str) -> (r: Vec<String>)
    ensures
        r.deep_view() == spec_repo_list(
            spec_split_lines(text@),
            spec_split_lines(text@).len() as int,
        ),
{
    let chars = str_to_chars(text);
    let lines = split_lines(&chars);
    let ghost lns = lines.deep_view();
    let n = lines.len();
    let mut r: Vec<String> = Vec::new();
    proof {
        assert(r.deep_view() =~= spec_repo_list(lns, 0));
    }
    let mut i: usize = 0;
    while i < n
        invariant
            i <= n,
            n == lines@.len(),
            lns == lines.deep_view(),
            lns == spec_split_lines(text@),
            lns.len() == n,
            r.deep_view() == spec_repo_list(lns, i as int),
        decreases n - i,
    {
        proof {
            assert(lines.deep_view()[i as int] == lines@[i as int].deep_view());
            assert(lines@[i as int].deep_view() =~= lines@[i as int]@);
        }
        let line = &lines[i];
        let m = line.len();
        let mut blank = true;
        let mut j: usize = 0;
        while j < m
            invariant
                j <= m,
                m == line@.len(),
                line@ == lns[i as int],
                0 <= i < n,
                blank == (forall|t: int| 0 <= t < j ==> crate::doc::spec_space(#[trigger] line@[t])),
            decreases m - j,
        {
            let c = line[j];
            if !(c == ' ' || c == '\t' || c == '\r') {
                blank = false;
            }
            j += 1;
        }
        let ghost old_r = r;
        if !blank {
            let s = crate::strutil::chars_to_string(line, 0, m);
            proof {
                assert(s@ =~= line@);
            }
            r.push(s);
            proof {
                assert(r.deep_view() =~= old_r.deep_view().push(lns[i as int]));
            }
        }
        i += 1;
    }
    r
}

/// What all the fetched repository indexes together offer, each parsed
/// against its repository's base URL: the concatenation in repository
/// order, or nothing as soon as one index is invalid.
pub open spec fn spec_all_available(
    repos: Seq<Seq<char>>,
    indexes: Seq<Seq<char>>,
    upto: int,
) -> Option<Seq<OnlinePackageModel>>
    decreases upto,
{
    if upto <= 0 {
        Some(seq![])
    } else {
        match spec_all_available(repos, indexes, upto - 1) {
            None => None,
            Some(acc) => match spec_repo_index(indexes[upto - 1], repos[upto - 1]) {
                None => None,
                Some(pkgs) => Some(acc + pkgs),
            },
        }
    }
}

/// Every package the repositories offer: each fetched index text parsed
/// against its repository URL, the results concatenated in repository
/// order.
pub fn get_all_available_packages(repos: &Vec<String>, indexes: &Vec<String>) -> (r: Result<
    Vec<OnlinePackage>,
    Error,
>)
    requires
        indexes@.len() == repos@.len(),
    ensures
        r matches Ok(v) ==> spec_all_available(
            repos.deep_view(),
            indexes.deep_view(),
            repos@.len() as int,
        ) == Some(v.deep_view()),
        r is Ok <==> spec_all_available(
            repos.deep_view(),
            indexes.deep_view(),
            repos@.len() as int,
        ) is Some,
        r matches Err(e) ==> e matches Error::Parse(_),
{
    let ghost rdv = repos.deep_view();
    let ghost idv = indexes.deep_view();
    let n = repos.len();
    let mut ret: Vec<OnlinePackage> = Vec::new();
    proof {
        assert(ret.deep_view() =~= Seq::<OnlinePackageModel>::empty());
        assert(spec_all_available(rdv, idv, 0) == Some(ret.deep_view()));
    }
    let mut i: usize = 0;
    while i < n
        invariant
            i <= n,
            n == repos@.len(),
            indexes@.len() == n,
            rdv == repos.deep_view(),
            idv == indexes.deep_view(),
            spec_all_available(rdv, idv, i as int) == Some(ret.deep_view()),
        decreases n - i,
    {
        proof {
            assert(rdv[i as int] == repos@[i as int]@);
            assert(idv[i as int] == indexes@[i as int]@);
        }
        match parse_repository_index(indexes[i].as_str(), repos[i].as_str()) {
            Ok(mut packages) => {
                let ghost old_ret = ret.deep_view();
                let ghost pkgs = packages.deep_view();
                let m = packages.len();
                let mut k: usize = 0;
                proof {
                    assert(pkgs.subrange(0, 0) =~= Seq::<OnlinePackageModel>::empty());
                    assert(ret.deep_view() + pkgs.subrange(0, 0) =~= ret.deep_view());
                }
                while k < m
                    invariant
                        k <= m,
                        m == packages@.len(),
                        pkgs == packages.deep_view(),
                        ret.deep_view() == old_ret + pkgs.subrange(0, k as int),
                    decreases m - k,
                {
                    let ghost before = ret.deep_view();
                    let p = packages[k].clone();
                    proof {
                        assert(p@ == packages@[k as int]@);
                        assert(pkgs[k as int] == packages@[k as int]@);
                    }
                    ret.push(p);
                    k += 1;
                    proof {
                        assert(ret.deep_view() =~= before.push(pkgs[k - 1]));
                        assert(old_ret + pkgs.subrange(0, k as int) =~= (old_ret + pkgs.subrange(
                            0,
                            k - 1,
                        )).push(pkgs[k - 1]));
                    }
                }
                proof {
                    assert(pkgs.subrange(0, m as int) =~= pkgs);
                }
            },
            Err(e) => {
                proof {
                    assert(spec_all_available(rdv, idv, i + 1) is None);
                    lemma_all_available_none_extends(rdv, idv, i + 1, n as int);
                }
                return Err(e);
            },
        }
        i += 1;
    }
    Ok(ret)
}

/// Once one index is invalid, the whole catalogue is, however many
/// repositories follow.
proof fn lemma_all_available_none_extends(
    repos: Seq<Seq<char>>,
    indexes: Seq<Seq<char>>,
    from: int,
    to: int,
)
    requires
        0 <= from <= to,
        spec_all_available(repos, indexes, from) is None,
    ensures
        spec_all_available(repos, indexes, to) is None,
    decreases to - from,
{
    if from < to {
        lemma_all_available_none_extends(repos, indexes, from + 1, to);
    }
}

} // verus!
