use vstd::prelude::*;
use vstd::string::StringExecFns;

use crate::doc::{parse_line, spec_line_of, spec_split_lines, split_lines, Line, LineModel,
    ParsedLine};
use crate::error::Error;
use crate::repo::OnlinePackage;
use crate::strutil::{str_to_chars, string_eq_str};

verus! {

/// A named dependency constraint. An empty `version_mask` means the
/// dependency is unconstrained.
#[derive(Debug)]
pub struct Dependency {
    pub name: String,
    pub version_mask: String,
}

impl Clone for Dependency {
    fn clone(&self) -> (r: Self)
        ensures
            r@ == self@,
    {
        Dependency { name: self.name.clone(), version_mask: self.version_mask.clone() }
    }
}

/// The mathematical value of a `Dependency`.
pub struct DependencyModel {
    pub name: Seq<char>,
    pub version_mask: Seq<char>,
}

impl View for Dependency {
    type V = DependencyModel;

    open spec fn view(&self) -> DependencyModel {
        DependencyModel { name: self.name@, version_mask: self.version_mask@ }
    }
}

impl DeepView for Dependency {
    type V = DependencyModel;

    open spec fn deep_view(&self) -> DependencyModel {
        self.view()
    }
}

impl PartialEq for Dependency {
    fn eq(&self, other: &Dependency) -> (r: bool) {
        self.name == other.name && self.version_mask == other.version_mask
    }
}

impl vstd::std_specs::cmp::PartialEqSpecImpl for Dependency {
    open spec fn obeys_eq_spec() -> bool {
        true
    }

    open spec fn eq_spec(&self, other: &Dependency) -> bool {
        self@ == other@
    }
}

impl Eq for Dependency {}

/// The identity of a package: equality is exactly (name, version).
#[derive(Debug)]
pub struct Package {
    pub name: String,
    pub version: String,
}

impl Clone for Package {
    fn clone(&self) -> (r: Self)
        ensures
            r@ == self@,
    {
        Package { name: self.name.clone(), version: self.version.clone() }
    }
}

/// The mathematical value of a `Package`.
pub struct PackageModel {
    pub name: Seq<char>,
    pub version: Seq<char>,
}

impl View for Package {
    type V = PackageModel;

    open spec fn view(&self) -> PackageModel {
        PackageModel { name: self.name@, version: self.version@ }
    }
}

impl DeepView for Package {
    type V = PackageModel;

    open spec fn deep_view(&self) -> PackageModel {
        self.view()
    }
}

impl PartialEq for Package {
    fn eq(&self, other: &Package) -> (r: bool) {
        self.name == other.name && self.version == other.version
    }
}

impl vstd::std_specs::cmp::PartialEqSpecImpl for Package {
    open spec fn obeys_eq_spec() -> bool {
        true
    }

    open spec fn eq_spec(&self, other: &Package) -> bool {
        self@ == other@
    }
}

impl Eq for Package {}

impl Package {
    /// A printable description of the package, in place of `Display`.
    pub fn display_string(&self) -> (r: String)
        ensures
            r@ == "Package: "@ + self.name@ + " "@ + self.version@,
    {
        let mut s = String::from_str("Package: ");
        s.append(self.name.as_str());
        s.append(" ");
        s.append(self.version.as_str());
        s
    }
}

/// A parsed package manifest: the package's own identity plus the
/// dependencies it declares.
#[derive(Debug)]
pub struct PackageConfig {
    pub name: String,
    pub version: String,
    pub depends: Vec<Dependency>,
}

/// The mathematical value of a `PackageConfig`.
pub struct PackageConfigModel {
    pub name: Seq<char>,
    pub version: Seq<char>,
    pub depends: Seq<DependencyModel>,
}

impl View for PackageConfig {
    type V = PackageConfigModel;

    open spec fn view(&self) -> PackageConfigModel {
        PackageConfigModel {
            name: self.name@,
            version: self.version@,
            depends: self.depends.deep_view(),
        }
    }
}

impl DeepView for PackageConfig {
    type V = PackageConfigModel;

    open spec fn deep_view(&self) -> PackageConfigModel {
        self.view()
    }
}

/// Elementwise comparison of two dependency lists.
pub fn dependencies_eq(a: &Vec<Dependency>, b: &Vec<Dependency>) -> (r: bool)
    ensures
        r == (a.deep_view() == b.deep_view()),
{
    if a.len() != b.len() {
        assert(a.deep_view().len() != b.deep_view().len());
        return false;
    }
    let mut i: usize = 0;
    while i < a.len()
        invariant
            i <= a.len(),
            a.len() == b.len(),
            forall|j: int| 0 <= j < i ==> a.deep_view()[j] == b.deep_view()[j],
        decreases a.len() - i,
    {
        if !(a[i] == b[i]) {
            assert(a.deep_view()[i as int] != b.deep_view()[i as int]);
            return false;
        }
        i += 1;
    }
    proof {
        assert(a.deep_view() =~= b.deep_view());
    }
    true
}

impl PartialEq for PackageConfig {
    fn eq(&self, other: &PackageConfig) -> (r: bool) {
        self.name == other.name && self.version == other.version && dependencies_eq(
            &self.depends,
            &other.depends,
        )
    }
}

impl vstd::std_specs::cmp::PartialEqSpecImpl for PackageConfig {
    open spec fn obeys_eq_spec() -> bool {
        true
    }

    open spec fn eq_spec(&self, other: &PackageConfig) -> bool {
        self@ == other@
    }
}

impl Eq for PackageConfig {}

/// How deeply blocks may nest before a document is refused.
pub const NESTING_LIMIT: usize = 64;

/// A scalar manifest field while the document is read.
pub enum FieldModel {
    /// No node of that name was seen yet.
    Unset,
    /// The first node of that name had this first argument.
    Val(Seq<char>),
    /// The first node of that name had no argument: the manifest is
    /// invalid.
    Bad,
}

/// The executable form of `FieldModel`.
pub enum Field {
    Unset,
    Val(String),
    Bad,
}

impl View for Field {
    type V = FieldModel;

    open spec fn view(&self) -> FieldModel {
        match self {
            Field::Unset => FieldModel::Unset,
            Field::Val(v) => FieldModel::Val(v@),
            Field::Bad => FieldModel::Bad,
        }
    }
}

/// Where in the document the manifest reader stands.
pub enum MCtxModel {
    /// At the top level.
    Top,
    /// Inside the block of a `depends` node, with the dependency's name
    /// and the mask read so far.
    InDep { dname: Seq<char>, mask: Seq<char> },
    /// Inside `depth` unknown blocks at the top level.
    SkipTop { depth: int },
    /// Inside `depth` unknown blocks under a `depends` block.
    SkipDep { dname: Seq<char>, mask: Seq<char>, depth: int },
}

/// The executable form of `MCtxModel`.
pub enum MCtx {
    Top,
    InDep { dname: String, mask: String },
    SkipTop { depth: usize },
    SkipDep { dname: String, mask: String, depth: usize },
}

impl View for MCtx {
    type V = MCtxModel;

    open spec fn view(&self) -> MCtxModel {
        match self {
            MCtx::Top => MCtxModel::Top,
            MCtx::InDep { dname, mask } => MCtxModel::InDep { dname: dname@, mask: mask@ },
            MCtx::SkipTop { depth } => MCtxModel::SkipTop { depth: *depth as int },
            MCtx::SkipDep { dname, mask, depth } => MCtxModel::SkipDep {
                dname: dname@,
                mask: mask@,
                depth: *depth as int,
            },
        }
    }
}

/// The manifest reader's whole state.
pub struct MStateModel {
    pub name: FieldModel,
    pub version: FieldModel,
    pub depends: Seq<DependencyModel>,
    pub ctx: MCtxModel,
}

/// The executable form of `MStateModel`.
pub struct MState {
    pub name: Field,
    pub version: Field,
    pub depends: Vec<Dependency>,
    pub ctx: MCtx,
}

impl View for MState {
    type V = MStateModel;

    open spec fn view(&self) -> MStateModel {
        MStateModel {
            name: self.name@,
            version: self.version@,
            depends: self.depends.deep_view(),
            ctx: self.ctx@,
        }
    }
}

/// Record a scalar field from the first node bearing its name: the first
/// argument if there is one, else the field is marked bad.
pub open spec fn spec_record_field(f: FieldModel, args: Seq<Seq<char>>) -> FieldModel {
    match f {
        FieldModel::Unset => if args.len() > 0 {
            FieldModel::Val(args[0])
        } else {
            FieldModel::Bad
        },
        _ => f,
    }
}

/// One step of the manifest reader on one content line.
///
/// At the top level, `name` and `version` nodes record their first
/// argument, a `depends` node records a dependency (its block, if any,
/// may carry a nested `version` mask), and any other node is skipped,
/// block and all. `None` is a hard error: a stray `}`, a `depends` node
/// without a name, a nested `version` node without a value, or nesting
/// past the limit.
pub open spec fn spec_mstep(st: MStateModel, lm: LineModel) -> Option<MStateModel> {
    match st.ctx {
        MCtxModel::SkipTop { depth } => match lm {
            LineModel::Close => Some(
                MStateModel {
                    ctx: if depth <= 1 {
                        MCtxModel::Top
                    } else {
                        MCtxModel::SkipTop { depth: depth - 1 }
                    },
                    ..st
                },
            ),
            LineModel::Node { opens, .. } => if opens {
                if depth >= NESTING_LIMIT {
                    None
                } else {
                    Some(MStateModel { ctx: MCtxModel::SkipTop { depth: depth + 1 }, ..st })
                }
            } else {
                Some(st)
            },
        },
        MCtxModel::SkipDep { dname, mask, depth } => match lm {
            LineModel::Close => Some(
                MStateModel {
                    ctx: if depth <= 1 {
                        MCtxModel::InDep { dname, mask }
                    } else {
                        MCtxModel::SkipDep { dname, mask, depth: depth - 1 }
                    },
                    ..st
                },
            ),
            LineModel::Node { opens, .. } => if opens {
                if depth >= NESTING_LIMIT {
                    None
                } else {
                    Some(
                        MStateModel {
                            ctx: MCtxModel::SkipDep { dname, mask, depth: depth + 1 },
                            ..st
                        },
                    )
                }
            } else {
                Some(st)
            },
        },
        MCtxModel::Top => match lm {
            LineModel::Close => None,
            LineModel::Node { name, args, props, opens } => {
                if name == "depends"@ {
                    if args.len() == 0 {
                        None
                    } else if opens {
                        Some(
                            MStateModel {
                                ctx: MCtxModel::InDep { dname: args[0], mask: Seq::empty() },
                                ..st
                            },
                        )
                    } else {
                        Some(
                            MStateModel {
                                depends: st.depends.push(
                                    DependencyModel { name: args[0], version_mask: Seq::empty() },
                                ),
                                ..st
                            },
                        )
                    }
                } else {
                    let st1 = if name == "name"@ {
                        MStateModel { name: spec_record_field(st.name, args), ..st }
                    } else if name == "version"@ {
                        MStateModel { version: spec_record_field(st.version, args), ..st }
                    } else {
                        st
                    };
                    if opens {
                        Some(MStateModel { ctx: MCtxModel::SkipTop { depth: 1 }, ..st1 })
                    } else {
                        Some(st1)
                    }
                }
            },
        },
        MCtxModel::InDep { dname, mask } => match lm {
            LineModel::Close => Some(
                MStateModel {
                    depends: st.depends.push(
                        DependencyModel { name: dname, version_mask: mask },
                    ),
                    ctx: MCtxModel::Top,
                    ..st
                },
            ),
            LineModel::Node { name, args, opens, .. } => {
                if name == "version"@ {
                    if args.len() == 0 {
                        None
                    } else if opens {
                        Some(
                            MStateModel {
                                ctx: MCtxModel::SkipDep { dname, mask: args[0], depth: 1 },
                                ..st
                            },
                        )
                    } else {
                        Some(
                            MStateModel { ctx: MCtxModel::InDep { dname, mask: args[0] }, ..st },
                        )
                    }
                } else {
                    if opens {
                        Some(
                            MStateModel { ctx: MCtxModel::SkipDep { dname, mask, depth: 1 }, ..st },
                        )
                    } else {
                        Some(st)
                    }
                }
            },
        },
    }
}

/// The manifest reader folded over the lines from `i` on.
pub open spec fn spec_mfold(lines: Seq<Seq<char>>, i: int, st: MStateModel) -> Option<MStateModel>
    decreases lines.len() - i,
{
    if i >= lines.len() {
        Some(st)
    } else {
        match spec_line_of(lines[i]) {
            None => None,
            Some(None) => spec_mfold(lines, i + 1, st),
            Some(Some(lm)) => match spec_mstep(st, lm) {
                None => None,
                Some(st2) => spec_mfold(lines, i + 1, st2),
            },
        }
    }
}

/// The manifest reader's starting state.
pub open spec fn spec_manifest_init() -> MStateModel {
    MStateModel {
        name: FieldModel::Unset,
        version: FieldModel::Unset,
        depends: Seq::empty(),
        ctx: MCtxModel::Top,
    }
}

/// What a manifest document means: its package name, version and
/// dependencies, or nothing if the document is not a valid manifest —
/// when it fails to parse, a block stays open, or the `name` or
/// `version` field is missing or without argument.
pub open spec fn spec_manifest(s: Seq<char>) -> Option<PackageConfigModel> {
    match spec_mfold(spec_split_lines(s), 0, spec_manifest_init()) {
        None => None,
        Some(st) => match st.ctx {
            MCtxModel::Top => match st.name {
                FieldModel::Val(n) => match st.version {
                    FieldModel::Val(v) => Some(
                        PackageConfigModel { name: n, version: v, depends: st.depends },
                    ),
                    _ => None,
                },
                _ => None,
            },
            _ => None,
        },
    }
}

/// Record a scalar field from a node's arguments.
fn record_field(f: Field, args: &Vec<String>) -> (r: Field)
    ensures
        r@ == spec_record_field(f@, args.deep_view()),
{
    match f {
        Field::Unset => {
            if args.len() > 0 {
                proof {
                    assert(args.deep_view()[0] == args@[0]@);
                }
                Field::Val(args[0].clone())
            } else {
                Field::Bad
            }
        },
        other => other,
    }
}

/// One step of the manifest reader.
fn mstep(st: MState, l: Line) -> (r: Option<MState>)
    ensures
        match r {
            Some(s2) => spec_mstep(st@, l@) == Some(s2@),
            None => spec_mstep(st@, l@) is None,
        },
{
    match st.ctx {
        MCtx::SkipTop { depth } => match l {
            Line::Close => Some(
                MState {
                    ctx: if depth <= 1 {
                        MCtx::Top
                    } else {
                        MCtx::SkipTop { depth: depth - 1 }
                    },
                    ..st
                },
            ),
            Line::Node { opens, .. } => if opens {
                if depth >= NESTING_LIMIT {
                    None
                } else {
                    Some(MState { ctx: MCtx::SkipTop { depth: depth + 1 }, ..st })
                }
            } else {
                Some(MState { ctx: MCtx::SkipTop { depth }, ..st })
            },
        },
        MCtx::SkipDep { dname, mask, depth } => match l {
            Line::Close => Some(
                MState {
                    ctx: if depth <= 1 {
                        MCtx::InDep { dname, mask }
                    } else {
                        MCtx::SkipDep { dname, mask, depth: depth - 1 }
                    },
                    ..st
                },
            ),
            Line::Node { opens, .. } => if opens {
                if depth >= NESTING_LIMIT {
                    None
                } else {
                    Some(MState { ctx: MCtx::SkipDep { dname, mask, depth: depth + 1 }, ..st })
                }
            } else {
                Some(MState { ctx: MCtx::SkipDep { dname, mask, depth }, ..st })
            },
        },
        MCtx::Top => match l {
            Line::Close => None,
            Line::Node { name, args, props: _, opens } => {
                if string_eq_str(&name, "depends") {
                    if args.len() == 0 {
                        None
                    } else {
                        proof {
                            assert(args.deep_view()[0] == args@[0]@);
                        }
                        if opens {
                            Some(
                                MState {
                                    ctx: MCtx::InDep { dname: args[0].clone(), mask: String::new() },
                                    ..st
                                },
                            )
                        } else {
                            let mut depends = st.depends;
                            let ghost old_depends = depends.deep_view();
                            depends.push(
                                Dependency { name: args[0].clone(), version_mask: String::new() },
                            );
                            proof {
                                assert(depends.deep_view() =~= old_depends.push(
                                    (DependencyModel {
                                        name: args@[0]@,
                                        version_mask: Seq::empty(),
                                    }),
                                ));
                            }
                            Some(MState { depends, ..st })
                        }
                    }
                } else {
                    let is_name = string_eq_str(&name, "name");
                    let is_version = string_eq_str(&name, "version");
                    let st1 = if is_name {
                        MState { name: record_field(st.name, &args), ..st }
                    } else if is_version {
                        MState { version: record_field(st.version, &args), ..st }
                    } else {
                        st
                    };
                    if opens {
                        Some(MState { ctx: MCtx::SkipTop { depth: 1 }, ..st1 })
                    } else {
                        Some(st1)
                    }
                }
            },
        },
        MCtx::InDep { dname, mask } => match l {
            Line::Close => {
                let mut depends = st.depends;
                let ghost old_depends = depends.deep_view();
                let ghost dn = dname@;
                let ghost mk = mask@;
                depends.push(Dependency { name: dname, version_mask: mask });
                proof {
                    assert(depends.deep_view() =~= old_depends.push(
                        (DependencyModel { name: dn, version_mask: mk }),
                    ));
                }
                Some(MState { depends, ctx: MCtx::Top, ..st })
            },
            Line::Node { name, args, props: _, opens } => {
                if string_eq_str(&name, "version") {
                    if args.len() == 0 {
                        None
                    } else {
                        proof {
                            assert(args.deep_view()[0] == args@[0]@);
                        }
                        if opens {
                            Some(
                                MState {
                                    ctx: MCtx::SkipDep { dname, mask: args[0].clone(), depth: 1 },
                                    ..st
                                },
                            )
                        } else {
                            Some(
                                MState {
                                    ctx: MCtx::InDep { dname, mask: args[0].clone() },
                                    ..st
                                },
                            )
                        }
                    }
                } else {
                    if opens {
                        Some(MState { ctx: MCtx::SkipDep { dname, mask, depth: 1 }, ..st })
                    } else {
                        Some(MState { ctx: MCtx::InDep { dname, mask }, ..st })
                    }
                }
            },
        },
    }
}

/// Parses the package manifest `file`. `Ok` exactly when the document is
/// a valid manifest of the grammar; the result then holds the `name` and
/// `version` fields and the declared dependencies in order.
pub fn get_package_config(file: &str) -> (r: Result<PackageConfig, Error>)
    ensures
        r matches Ok(c) ==> spec_manifest(file@) == Some(c@),
        r is Ok <==> spec_manifest(file@) is Some,
        r matches Err(e) ==> e matches Error::Parse(_),
{
    let chars = str_to_chars(file);
    let lines = split_lines(&chars);
    let ghost lns = lines.deep_view();
    let n = lines.len();
    let mut st = MState {
        name: Field::Unset,
        version: Field::Unset,
        depends: Vec::new(),
        ctx: MCtx::Top,
    };
    proof {
        assert(st@.depends =~= Seq::<DependencyModel>::empty());
        assert(st@ == spec_manifest_init());
        assert(lns == spec_split_lines(file@));
        assert(lns.len() == n);
    }
    let mut i: usize = 0;
    while i < n
        invariant
            i <= n,
            n == lines@.len(),
            lns == lines.deep_view(),
            lns == spec_split_lines(file@),
            lns.len() == n,
            spec_mfold(lns, i as int, st@) == spec_mfold(lns, 0, spec_manifest_init()),
        decreases n - i,
    {
        proof {
            assert(lines.deep_view()[i as int] == lines@[i as int].deep_view());
            assert(lines@[i as int].deep_view() =~= lines@[i as int]@);
        }
        match parse_line(&lines[i]) {
            ParsedLine::Invalid => {
                proof {
                    assert(spec_mfold(lns, i as int, st@) is None);
                }
                return Err(
                    Error::Parse(String::from_str("Failed to parse document")),
                );
            },
            ParsedLine::Blank => {
            },
            ParsedLine::Content(l) => {
                match mstep(st, l) {
                    Some(s2) => {
                        st = s2;
                    },
                    None => {
                        return Err(
                            Error::Parse(String::from_str("Invalid manifest node")),
                        );
                    },
                }
            },
        }
        i += 1;
    }
    match st.ctx {
        MCtx::Top => {
        },
        _ => {
            return Err(
                Error::Parse(String::from_str("Unclosed block in manifest")),
            );
        },
    }
    let name = match st.name {
        Field::Val(v) => v,
        _ => {
            return Err(
                Error::Parse(String::from_str("name does not have an argument")),
            );
        },
    };
    let version = match st.version {
        Field::Val(v) => v,
        _ => {
            return Err(
                Error::Parse(String::from_str("version does not have an argument")),
            );
        },
    };
    Ok(PackageConfig { name, version, depends: st.depends })
}

/// Returns `Ok` exactly when `file` is a valid package manifest.
pub fn verify_pkg_config(file: &str) -> (r: Result<(), Error>)
    ensures
        r is Ok <==> spec_manifest(file@) is Some,
        r matches Err(e) ==> e matches Error::Parse(_),
{
    match get_package_config(file) {
        Err(x) => Err(x),
        Ok(_) => Ok(()),
    }
}

/// The bare identity of a pool or repository entry: its (name, version).
pub open spec fn spec_downgrade(pkg: crate::repo::OnlinePackageModel) -> PackageModel {
    PackageModel { name: pkg.name, version: pkg.version }
}

/// An ASCII decimal digit.
pub open spec fn spec_digit(c: char) -> bool {
    '0' <= c && c <= '9'
}

/// A non-empty run of decimal digits.
pub open spec fn spec_digits(s: Seq<char>) -> bool {
    s.len() > 0 && forall|i: int| 0 <= i < s.len() ==> spec_digit(#[trigger] s[i])
}

/// The number a run of decimal digits stands for.
pub open spec fn spec_dec_value(s: Seq<char>) -> int
    decreases s.len(),
{
    if s.len() == 0 {
        0
    } else {
        spec_dec_value(s.drop_last()) * 10 + (s.last() as int - '0' as int)
    }
}

/// The pieces of `s` cut at every `.`, empty pieces kept.
pub open spec fn spec_split_dots_rest(s: Seq<char>, cur: Seq<char>) -> Seq<Seq<char>>
    decreases s.len(),
{
    if s.len() == 0 {
        seq![cur]
    } else if s[0] == '.' {
        seq![cur] + spec_split_dots_rest(s.drop_first(), Seq::empty())
    } else {
        spec_split_dots_rest(s.drop_first(), cur.push(s[0]))
    }
}

/// One version component: digits whose value fits an unsigned 32-bit
/// number.
pub open spec fn spec_semver_part_ok(s: Seq<char>) -> bool {
    spec_digits(s) && spec_dec_value(s) <= u32::MAX
}

/// A dotted-triple version string: exactly three components separated by
/// `.`, each a bounded run of digits.
pub open spec fn spec_semver_ok(s: Seq<char>) -> bool {
    let parts = spec_split_dots_rest(s, Seq::empty());
    parts.len() == 3 && spec_semver_part_ok(parts[0]) && spec_semver_part_ok(parts[1])
        && spec_semver_part_ok(parts[2])
}

/// The package a pool directory name stands for: the text after the last
/// `-` must be a dotted-triple version; what stands before the `-` is the
/// name.
pub open spec fn spec_string_to_package(s: Seq<char>) -> Option<PackageModel> {
    match s.index_of_last('-') {
        None => None,
        Some(k) => {
            let version = s.subrange(k + 1, s.len() as int);
            if spec_semver_ok(version) {
                Some(PackageModel { name: s.subrange(0, k), version })
            } else {
                None
            }
        },
    }
}

/// Cut `chars[from..to]` at every `.`, empty pieces kept.
fn split_dots(chars: &Vec<char>, from: usize, to: usize) -> (r: Vec<Vec<char>>)
    requires
        from <= to <= chars@.len(),
    ensures
        r.deep_view() == spec_split_dots_rest(
            chars@.subrange(from as int, to as int),
            Seq::empty(),
        ),
{
    let ghost whole = chars@.subrange(from as int, to as int);
    let mut r: Vec<Vec<char>> = Vec::new();
    let mut cur: Vec<char> = Vec::new();
    let mut i: usize = from;
    proof {
        assert(r.deep_view() + spec_split_dots_rest(whole, Seq::empty()) =~= spec_split_dots_rest(
            whole,
            Seq::empty(),
        ));
    }
    while i < to
        invariant
            from <= i <= to <= chars@.len(),
            whole == chars@.subrange(from as int, to as int),
            r.deep_view() + spec_split_dots_rest(chars@.subrange(i as int, to as int), cur@)
                == spec_split_dots_rest(whole, Seq::empty()),
        decreases to - i,
    {
        let ghost rest = chars@.subrange(i as int, to as int);
        proof {
            assert(rest.drop_first() =~= chars@.subrange(i + 1, to as int));
            assert(rest[0] == chars@[i as int]);
        }
        let c = chars[i];
        if c == '.' {
            let ghost old_r = r;
            let ghost old_cur = cur@;
            proof {
                assert(cur.deep_view() =~= cur@);
            }
            r.push(cur);
            cur = Vec::new();
            proof {
                assert(r.deep_view() =~~= old_r.deep_view().push(old_cur));
                assert(old_r.deep_view().push(old_cur) + spec_split_dots_rest(
                    chars@.subrange(i + 1, to as int),
                    Seq::empty(),
                ) =~= old_r.deep_view() + (seq![old_cur] + spec_split_dots_rest(
                    chars@.subrange(i + 1, to as int),
                    Seq::empty(),
                )));
            }
        } else {
            cur.push(c);
        }
        i += 1;
    }
    proof {
        assert(chars@.subrange(to as int, to as int) =~= Seq::<char>::empty());
    }
    let ghost old_r = r;
    let ghost old_cur = cur@;
    proof {
        assert(cur.deep_view() =~= cur@);
    }
    r.push(cur);
    proof {
        assert(r.deep_view() =~~= old_r.deep_view().push(old_cur));
        assert(old_r.deep_view().push(old_cur) =~= old_r.deep_view() + seq![old_cur]);
    }
    r
}

/// The value of one version component, or `None` when it is not a
/// bounded run of digits.
fn dec_value_checked(part: &Vec<char>) -> (r: Option<u32>)
    ensures
        r is Some <==> spec_semver_part_ok(part@),
        r matches Some(v) ==> v as int == spec_dec_value(part@),
{
    let n = part.len();
    if n == 0 {
        return None;
    }
    let mut acc: u64 = 0;
    let mut i: usize = 0;
    proof {
        assert(part@.subrange(0, 0) =~= Seq::<char>::empty());
    }
    while i < n
        invariant
            i <= n,
            n == part@.len(),
            acc as int == spec_dec_value(part@.subrange(0, i as int)),
            acc <= u32::MAX,
            forall|j: int| 0 <= j < i ==> spec_digit(#[trigger] part@[j]),
        decreases n - i,
    {
        let c = part[i];
        if !(c >= '0' && c <= '9') {
            return None;
        }
        let d: u64 = (c as u64) - ('0' as u64);
        let next: u64 = acc * 10 + d;
        proof {
            assert(part@.subrange(0, i + 1).drop_last() =~= part@.subrange(0, i as int));
            assert(part@.subrange(0, i + 1).last() == part@[i as int]);
        }
        if next > 0xffff_ffff {
            proof {
                if forall|j: int| 0 <= j < n ==> spec_digit(#[trigger] part@[j]) {
                    lemma_dec_value_monotone(part@, i + 1, n as int);
                    assert(part@.subrange(0, n as int) =~= part@);
                    assert(spec_dec_value(part@) > u32::MAX);
                }
            }
            return None;
        }
        acc = next;
        i += 1;
    }
    proof {
        assert(part@.subrange(0, n as int) =~= part@);
    }
    Some(acc as u32)
}

/// A longer digit run stands for at least as large a number.
proof fn lemma_dec_value_monotone(s: Seq<char>, a: int, b: int)
    requires
        0 <= a <= b <= s.len(),
        forall|j: int| 0 <= j < b ==> spec_digit(#[trigger] s[j]),
    ensures
        spec_dec_value(s.subrange(0, a)) <= spec_dec_value(s.subrange(0, b)),
    decreases b - a,
{
    if a < b {
        lemma_dec_value_monotone(s, a, b - 1);
        assert(s.subrange(0, b).drop_last() =~= s.subrange(0, b - 1));
        assert(spec_dec_value(s.subrange(0, b - 1)) >= 0) by {
            lemma_dec_value_nonneg(s.subrange(0, b - 1));
        }
        assert(s.subrange(0, b).last() == s[b - 1]);
    }
}

/// A digit run never stands for a negative number.
proof fn lemma_dec_value_nonneg(s: Seq<char>)
    ensures
        (forall|j: int| 0 <= j < s.len() ==> spec_digit(#[trigger] s[j])) ==> spec_dec_value(s)
            >= 0,
    decreases s.len(),
{
    if s.len() > 0 {
        lemma_dec_value_nonneg(s.drop_last());
        assert forall|j: int| 0 <= j < s.drop_last().len() implies spec_digit(
            #[trigger] s.drop_last()[j],
        ) || !(forall|j2: int| 0 <= j2 < s.len() ==> spec_digit(#[trigger] s[j2])) by {
            assert(s.drop_last()[j] == s[j]);
        }
    }
}

/// Parses a pool directory name `<name>-<version>` into a package.
pub fn string_to_package(s: &str) -> (r: Result<Package, Error>)
    ensures
        r matches Ok(p) ==> spec_string_to_package(s@) == Some(p@),
        r is Ok <==> spec_string_to_package(s@) is Some,
        r matches Err(e) ==> e matches Error::Parse(_),
{
    let chars = str_to_chars(s);
    let n = chars.len();
    let mut last_dash: Option<usize> = None;
    let mut i: usize = 0;
    while i < n
        invariant
            i <= n,
            n == chars@.len(),
            chars@ == s@,
            match last_dash {
                Some(k) => k < i && chars@[k as int] == '-' && (forall|j: int|
                    k < j < i ==> chars@[j] != '-'),
                None => forall|j: int| 0 <= j < i ==> chars@[j] != '-',
            },
        decreases n - i,
    {
        if chars[i] == '-' {
            last_dash = Some(i);
        }
        i += 1;
    }
    proof {
        s@.index_of_last_ensures('-');
    }
    let k = match last_dash {
        Some(k) => {
            proof {
                if s@.index_of_last('-') is None {
                    assert(false);
                }
                let k2 = s@.index_of_last('-').unwrap();
                assert(s@[k2] == '-');
                assert(k2 == k);
            }
            k
        },
        None => {
            proof {
                if s@.index_of_last('-') is Some {
                    let k2 = s@.index_of_last('-').unwrap();
                    assert(s@[k2] == '-');
                    assert(false);
                }
            }
            return Err(
                Error::Parse(String::from_str("Failed to parse version from string")),
            );
        },
    };
    let parts = split_dots(&chars, k + 1, n);
    let ghost version = s@.subrange(k + 1, n as int);
    let ok = if parts.len() == 3 {
        let a = dec_value_checked(&parts[0]);
        let b = dec_value_checked(&parts[1]);
        let c = dec_value_checked(&parts[2]);
        proof {
            assert(parts.deep_view()[0] == parts@[0]@);
            assert(parts.deep_view()[1] == parts@[1]@);
            assert(parts.deep_view()[2] == parts@[2]@);
        }
        a.is_some() && b.is_some() && c.is_some()
    } else {
        false
    };
    if !ok {
        proof {
            assert(!spec_semver_ok(version));
        }
        return Err(
            Error::Parse(String::from_str("Failed to parse version string")),
        );
    }
    proof {
        assert(spec_semver_ok(version));
    }
    let name = crate::strutil::chars_to_string(&chars, 0, k);
    let ver = crate::strutil::chars_to_string(&chars, k + 1, n);
    Ok(Package { name, version: ver })
}

/// Downgrade an `OnlinePackage` to its bare identity.
pub fn onlinepackage_to_package(pkg: &OnlinePackage) -> (r: Package)
    ensures
        r@ == spec_downgrade(pkg@),
{
    Package { name: pkg.name.clone(), version: pkg.version.clone() }
}

/// Package equality is exactly (name, version): two packages compare
/// equal precisely when both fields agree.
pub proof fn lemma_package_equality_is_identity(a: Package, b: Package)
    ensures
        vstd::std_specs::cmp::PartialEqSpec::eq_spec(&a, &b) <==> (a@.name == b@.name && a@.version
            == b@.version),
{
}

/// A repository entry and a bare package with matching name and version
/// compare equal once the entry is downgraded: the entry's URL and
/// dependency list play no part in identity.
pub proof fn lemma_downgrade_equality(op: OnlinePackage, p: Package)
    ensures
        (spec_downgrade(op@) == p@) <==> (op@.name == p@.name && op@.version == p@.version),
{
}

} // verus!
