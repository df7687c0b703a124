//! The build configuration and everything derived from it: the assembler's
//! argument list, the compilation units, the library's file name and the
//! archiver command.

use vstd::prelude::*;
use crate::text::{chars_of, spells, push_str, has_prefix, has_suffix, begins_with, finishes_with, slice_string, string_of};
use crate::path::{join_path, object_path_of, join, object_path};
use crate::triple::{parse_triple, triple_flags};
use crate::version::Version;

verus! {

/// The abstract state of a [`Build`].
pub struct BuildView {
    pub files: Seq<Seq<char>>,
    pub flags: Seq<Seq<char>>,
    pub target: Option<Seq<char>>,
    pub out_dir: Option<Seq<char>>,
    pub archiver: Option<Seq<char>>,
    pub archiver_is_msvc: Option<bool>,
    pub nasm: Option<Seq<char>>,
    pub debug: bool,
    pub min_version: Version,
}

/// The characters of an optional string.
pub open spec fn opt_view(o: Option<String>) -> Option<Seq<char>> {
    match o {
        Some(s) => Some(s@),
        None => None,
    }
}

/// The characters of each string in `v`.
pub open spec fn strs_view(v: Seq<&str>) -> Seq<Seq<char>> {
    v.map_values(|s: &str| s@)
}

/// Whether the `DEBUG` setting of the host build asks for debug information:
/// it is set, to anything but `false`.
pub open spec fn debug_requested(var: Option<Seq<char>>) -> bool {
    match var {
        Some(d) => d != "false"@,
        None => false,
    }
}

/// The flag that adds `dir` to the include path; the assembler wants it to
/// end in a separator.
pub open spec fn include_flag(dir: Seq<char>) -> Seq<char> {
    let f = "-I"@ + dir;
    if dir.len() > 0 && dir.last() == '/' {
        f
    } else {
        f.push('/')
    }
}

/// The flag that predefines macro `var`, with a value if one is given.
pub open spec fn define_flag(var: Seq<char>, val: Option<Seq<char>>) -> Seq<char> {
    match val {
        Some(v) => "-D"@ + var + "="@ + v,
        None => "-D"@ + var,
    }
}

/// The assembler's arguments for target `t`: the format flag, the debug
/// flag when debug information is on, then every added flag in order.
pub open spec fn args_for(b: BuildView, t: Seq<char>) -> Seq<Seq<char>> {
    seq![triple_flags(t).0] + (if b.debug { seq![triple_flags(t).1] } else { Seq::empty() })
        + b.flags
}

/// `s` with every trailing `.lib` removed, as `str::trim_end_matches` does.
pub open spec fn trim_lib_suffixes(s: Seq<char>) -> Seq<char>
    decreases s.len(),
{
    if has_suffix(s, ".lib"@) && ".lib"@.len() > 0 {
        trim_lib_suffixes(s.take(s.len() - ".lib"@.len()))
    } else {
        s
    }
}

/// The bare library name in a requested output name: `libNAME.a` and
/// `NAME.lib`, the forms older callers pass, are unwrapped.
pub open spec fn library_stem(name: Seq<char>) -> Seq<char> {
    if has_prefix(name, "lib"@) && has_suffix(name, ".a"@) {
        name.subrange(3, name.len() - 2)
    } else {
        trim_lib_suffixes(name)
    }
}

/// Whether `target` names an MSVC environment.
pub open spec fn is_msvc_target(target: Seq<char>) -> bool {
    has_suffix(target, "-msvc"@)
}

/// The file name of library `stem` on `target`: `STEM.lib` for MSVC,
/// `libSTEM.a` otherwise.
pub open spec fn library_file_name(stem: Seq<char>, target: Seq<char>) -> Seq<char> {
    if is_msvc_target(target) {
        stem + ".lib"@
    } else {
        "lib"@ + stem + ".a"@
    }
}

/// The archive file name produced for the requested output `name` on `target`.
pub open spec fn archive_name(name: Seq<char>, target: Seq<char>) -> Seq<char> {
    library_file_name(library_stem(name), target)
}

/// The name of the library file to produce for the requested output name
/// `lib_name` on `target`; e.g. `"foo"` gives `libfoo.a`, or `foo.lib` on an
/// MSVC target.
pub fn output_file_name(lib_name: &str, target: &str) -> (r: String)
    ensures
        r@ == archive_name(lib_name@, target@),
{
    proof {
        reveal_strlit("lib");
        reveal_strlit(".a");
        reveal_strlit(".lib");
    }
    let name = chars_of(lib_name);
    let stem = if begins_with(&name, "lib") && finishes_with(&name, ".a") {
        assert(name@.take(3)[1] == 'i' && name@.take(3)[2] == 'b');
        assert(name@[name.len() - 2] == name@.skip(name.len() - 2)[0]);
        assert(name@.skip(name.len() - 2)[0] == '.');
        assert(name.len() >= 5);
        slice_string(&name, 3, name.len() - 2)
    } else {
        let mut cur = chars_of(lib_name);
        while finishes_with(&cur, ".lib")
            invariant
                trim_lib_suffixes(cur@) == trim_lib_suffixes(name@),
                ".lib"@.len() == 4,
            decreases cur.len(),
        {
            let ghost prev = cur@;
            let n = cur.len() - 4;
            cur.truncate(n);
            assert(cur@ == prev.take(prev.len() - ".lib"@.len()));
        }
        string_of(&cur)
    };
    let t = chars_of(target);
    let mut r = String::new();
    if finishes_with(&t, "-msvc") {
        push_str(&mut r, stem.as_str());
        push_str(&mut r, ".lib");
    } else {
        push_str(&mut r, "lib");
        push_str(&mut r, stem.as_str());
        push_str(&mut r, ".a");
    }
    r
}

/// A configuration of one assembler run over a set of sources.
pub struct Build {
    files: Vec<String>,
    flags: Vec<String>,
    target: Option<String>,
    out_dir: Option<String>,
    archiver: Option<String>,
    archiver_is_msvc: Option<bool>,
    nasm: Option<String>,
    debug: bool,
    min_version: Version,
}

impl View for Build {
    type V = BuildView;

    closed spec fn view(&self) -> BuildView {
        BuildView {
            files: self.files.deep_view(),
            flags: self.flags.deep_view(),
            target: opt_view(self.target),
            out_dir: opt_view(self.out_dir),
            archiver: opt_view(self.archiver),
            archiver_is_msvc: self.archiver_is_msvc,
            nasm: opt_view(self.nasm),
            debug: self.debug,
            min_version: self.min_version,
        }
    }
}

fn owned(s: &str) -> (r: String)
    ensures
        r@ == s@,
{
    s.to_owned()
}

fn push_owned(v: &mut Vec<String>, s: String)
    ensures
        final(v).deep_view() == old(v).deep_view().push(s@),
{
    let ghost before = v.deep_view();
    v.push(s);
    assert(v.deep_view() =~= before.push(s@));
}

impl Build {
    /// An empty configuration. `debug_var` is the host build's `DEBUG`
    /// setting, if any; the minimum assembler version is 1.0.0.
    pub fn new(debug_var: Option<&str>) -> (b: Build)
        ensures
            b@ == (BuildView {
                files: Seq::empty(),
                flags: Seq::empty(),
                target: None,
                out_dir: None,
                archiver: None,
                archiver_is_msvc: None,
                nasm: None,
                debug: debug_requested(match debug_var { Some(d) => Some(d@), None => None }),
                min_version: (1, 0, 0),
            }),
    {
        let debug = match debug_var {
            Some(d) => !spells(&chars_of(d), "false"),
            None => false,
        };
        let b = Build {
            files: Vec::new(),
            flags: Vec::new(),
            target: None,
            out_dir: None,
            archiver: None,
            archiver_is_msvc: None,
            nasm: None,
            debug,
            min_version: (1, 0, 0),
        };
        assert(b@.files =~= Seq::<Seq<char>>::empty());
        assert(b@.flags =~= Seq::<Seq<char>>::empty());
        b
    }

    /// Adds a source file, e.g. `"foo.s"`.
    pub fn file(&mut self, p: &str) -> (r: &mut Self)
        ensures
            r@ == (BuildView { files: old(self)@.files.push(p@), ..old(self)@ }),
            *final(self) == *final(r),
    {
        push_owned(&mut self.files, owned(p));
        self
    }

    /// Adds several source files, in order.
    pub fn files(&mut self, files: &[&str]) -> (r: &mut Self)
        ensures
            r@ == (BuildView { files: old(self)@.files + strs_view(files@), ..old(self)@ }),
            *final(self) == *final(r),
    {
        let ghost start = self@;
        for i in 0..files.len()
            invariant
                self@ == (BuildView {
                    files: start.files + strs_view(files@.take(i as int)),
                    ..start
                }),
        {
            push_owned(&mut self.files, owned(files[i]));
            assert(strs_view(files@.take(i + 1)) =~= strs_view(files@.take(i as int)).push(
                files@[i as int]@,
            ));
            assert(start.files + strs_view(files@.take(i + 1)) =~= (start.files + strs_view(
                files@.take(i as int),
            )).push(files@[i as int]@));
        }
        assert(files@.take(files.len() as int) == files@);
        self
    }

    /// Adds a directory to the `-I` include path.
    pub fn include_dir(&mut self, dir: &str) -> (r: &mut Self)
        ensures
            r@ == (BuildView { flags: old(self)@.flags.push(include_flag(dir@)), ..old(self)@ }),
            *final(self) == *final(r),
    {
        let dc = chars_of(dir);
        let mut flag = String::new();
        push_str(&mut flag, "-I");
        push_str(&mut flag, dir);
        if !(dc.len() > 0 && dc[dc.len() - 1] == '/') {
            push_str(&mut flag, "/");
            proof {
                reveal_strlit("/");
            }
            assert(flag@ =~= ("-I"@ + dir@).push('/'));
        }
        push_owned(&mut self.flags, flag);
        self
    }

    /// Predefines a macro, with an optional value.
    pub fn define(&mut self, var: &str, val: Option<&str>) -> (r: &mut Self)
        ensures
            r@ == (BuildView {
                flags: old(self)@.flags.push(
                    define_flag(var@, match val { Some(v) => Some(v@), None => None }),
                ),
                ..old(self)@
            }),
            *final(self) == *final(r),
    {
        let mut flag = String::new();
        push_str(&mut flag, "-D");
        push_str(&mut flag, var);
        if let Some(v) = val {
            push_str(&mut flag, "=");
            push_str(&mut flag, v);
        }
        push_owned(&mut self.flags, flag);
        self
    }

    /// Sets whether the assembler emits debug information. By default this
    /// follows the host build's `DEBUG` setting.
    pub fn debug(&mut self, enable: bool) -> (r: &mut Self)
        ensures
            r@ == (BuildView { debug: enable, ..old(self)@ }),
            *final(self) == *final(r),
    {
        self.debug = enable;
        self
    }

    /// Adds an arbitrary flag to the assembler's invocation, e.g. `"-Fdwarf"`.
    pub fn flag(&mut self, flag: &str) -> (r: &mut Self)
        ensures
            r@ == (BuildView { flags: old(self)@.flags.push(flag@), ..old(self)@ }),
            *final(self) == *final(r),
    {
        push_owned(&mut self.flags, owned(flag));
        self
    }

    /// Sets the target triple. By default it is the host build's `TARGET`.
    pub fn target(&mut self, target: &str) -> (r: &mut Self)
        ensures
            r@ == (BuildView { target: Some(target@), ..old(self)@ }),
            *final(self) == *final(r),
    {
        self.target = Some(owned(target));
        self
    }

    /// Sets the directory for objects and the library. By default it is the
    /// host build's `OUT_DIR`.
    pub fn out_dir(&mut self, out_dir: &str) -> (r: &mut Self)
        ensures
            r@ == (BuildView { out_dir: Some(out_dir@), ..old(self)@ }),
            *final(self) == *final(r),
    {
        self.out_dir = Some(owned(out_dir));
        self
    }

    /// Sets the archiver program. By default it is the host build's `AR`,
    /// else the default of the archiving style.
    pub fn archiver(&mut self, archiver: &str) -> (r: &mut Self)
        ensures
            r@ == (BuildView { archiver: Some(archiver@), ..old(self)@ }),
            *final(self) == *final(r),
    {
        self.archiver = Some(owned(archiver));
        self
    }

    /// Sets whether archiving uses the MSVC librarian's syntax. By default
    /// it follows the platform the build runs on.
    pub fn archiver_is_msvc(&mut self, is_msvc: bool) -> (r: &mut Self)
        ensures
            r@ == (BuildView { archiver_is_msvc: Some(is_msvc), ..old(self)@ }),
            *final(self) == *final(r),
    {
        self.archiver_is_msvc = Some(is_msvc);
        self
    }

    /// Sets the path of the assembler, which is then the only one tried.
    pub fn nasm(&mut self, nasm: &str) -> (r: &mut Self)
        ensures
            r@ == (BuildView { nasm: Some(nasm@), ..old(self)@ }),
            *final(self) == *final(r),
    {
        self.nasm = Some(owned(nasm));
        self
    }

    /// Sets the minimum assembler version accepted.
    pub fn min_version(&mut self, major: usize, minor: usize, micro: usize) -> (r: &mut Self)
        ensures
            r@ == (BuildView { min_version: (major, minor, micro), ..old(self)@ }),
            *final(self) == *final(r),
    {
        self.min_version = (major, minor, micro);
        self
    }

    /// The assembler's arguments for target `target`, before the source and
    /// output operands.
    pub fn get_args(&self, target: &str) -> (r: Vec<String>)
        ensures
            r.deep_view() == args_for(self@, target@),
    {
        let (arch_flag, debug_flag) = parse_triple(target);
        let mut args: Vec<String> = Vec::new();
        push_owned(&mut args, owned(arch_flag));
        if self.debug {
            push_owned(&mut args, owned(debug_flag));
        }
        let ghost head = args.deep_view();
        for i in 0..self.flags.len()
            invariant
                args.deep_view() == head + self.flags.deep_view().take(i as int),
        {
            push_owned(&mut args, self.flags[i].clone());
            assert(self.flags.deep_view().take(i + 1) =~= self.flags.deep_view().take(i as int).push(
                self.flags@[i as int]@,
            ));
        }
        assert(self.flags.deep_view().take(self.flags.len() as int) == self.flags.deep_view());
        assert(args_for(self@, target@) =~= head + self.flags.deep_view());
        args
    }
}

/// One source file to assemble and where its object goes.
pub struct CompileUnit {
    pub source: String,
    pub object: String,
}

/// The source and object paths of a unit.
pub open spec fn unit_view(u: CompileUnit) -> (Seq<char>, Seq<char>) {
    (u.source@, u.object@)
}

/// Whether every source in `files` has a final name to derive an object from.
pub open spec fn all_named(files: Seq<Seq<char>>, out_dir: Seq<char>) -> bool {
    forall|i: int| 0 <= i < files.len() ==> object_path_of(out_dir, #[trigger] files[i]) is Some
}

/// The units for `files`, read from `src_dir` and written under `out_dir`,
/// in input order.
pub open spec fn units_for(files: Seq<Seq<char>>, src_dir: Seq<char>, out_dir: Seq<char>) -> Seq<
    (Seq<char>, Seq<char>),
> {
    Seq::new(
        files.len(),
        |i: int| (join_path(src_dir, files[i]), object_path_of(out_dir, files[i])->Some_0),
    )
}

/// The error for a source path that has no final name.
pub open spec fn unnamed_source_message(file: Seq<char>) -> Seq<char> {
    "source path has no file name: "@ + file
}

/// The full argument list of the assembler for unit `u`.
pub open spec fn unit_command(args: Seq<Seq<char>>, u: (Seq<char>, Seq<char>)) -> Seq<Seq<char>> {
    args + seq![u.0, "-o"@, u.1]
}

/// Whether archiving uses the MSVC librarian's syntax: an explicit setting
/// wins over the platform's default.
pub open spec fn resolved_msvc(b: BuildView, host_is_msvc: bool) -> bool {
    match b.archiver_is_msvc {
        Some(m) => m,
        None => host_is_msvc,
    }
}

/// The archiver program: an explicit setting, else the host build's `AR`,
/// else the platform's default (`lib` for the MSVC style, `ar` otherwise).
pub open spec fn archiver_program(b: BuildView, ar_var: Option<Seq<char>>, host_is_msvc: bool) -> Seq<char> {
    match b.archiver {
        Some(a) => a,
        None => match ar_var {
            Some(a) => a,
            None => if resolved_msvc(b, host_is_msvc) {
                "lib"@
            } else {
                "ar"@
            },
        },
    }
}

/// The archiver's arguments that put `objs` into `lib` under `out_dir`.
pub open spec fn archiver_args(msvc: bool, out_dir: Seq<char>, lib: Seq<char>, objs: Seq<Seq<char>>) -> Seq<
    Seq<char>,
> {
    if msvc {
        seq!["/OUT:"@ + join_path(out_dir, lib)] + objs
    } else {
        seq!["crus"@, join_path(out_dir, lib)] + objs
    }
}

/// The text of a missing setting's error.
pub open spec fn unset_message(name: Seq<char>) -> Seq<char> {
    name + " must be set"@
}

impl Build {
    /// The target triple: the configured one, else the host build's
    /// `TARGET` given as `target_var`.
    pub fn get_target(&self, target_var: Option<&str>) -> (r: Result<String, String>)
        ensures
            match (self@.target, target_var) {
                (Some(t), _) => r matches Ok(s) && s@ == t,
                (None, Some(t)) => r matches Ok(s) && s@ == t@,
                (None, None) => r matches Err(e) && e@ == unset_message("TARGET"@),
            },
    {
        match &self.target {
            Some(t) => Ok(t.clone()),
            None => match target_var {
                Some(t) => Ok(owned(t)),
                None => Err(unset("TARGET")),
            },
        }
    }

    /// The output directory: the configured one, else the host build's
    /// `OUT_DIR` given as `out_dir_var`.
    pub fn get_out_dir(&self, out_dir_var: Option<&str>) -> (r: Result<String, String>)
        ensures
            match (self@.out_dir, out_dir_var) {
                (Some(d), _) => r matches Ok(s) && s@ == d,
                (None, Some(d)) => r matches Ok(s) && s@ == d@,
                (None, None) => r matches Err(e) && e@ == unset_message("OUT_DIR"@),
            },
    {
        match &self.out_dir {
            Some(d) => Ok(d.clone()),
            None => match out_dir_var {
                Some(d) => Ok(owned(d)),
                None => Err(unset("OUT_DIR")),
            },
        }
    }

    /// The compilation units of the configured sources, in input order.
    /// Fails on the first source path that has no final name.
    pub fn compile_units(&self, src_dir: &str, out_dir: &str) -> (r: Result<Vec<CompileUnit>, String>)
        ensures
            all_named(self@.files, out_dir@) <==> r is Ok,
            r matches Ok(us) ==> us@.map_values(|u: CompileUnit| unit_view(u)) == units_for(
                self@.files,
                src_dir@,
                out_dir@,
            ),
            r matches Err(e) ==> exists|i: int|
                0 <= i < self@.files.len() && object_path_of(out_dir@, #[trigger] self@.files[i]) is None
                    && all_named(self@.files.take(i), out_dir@)
                    && e@ == unnamed_source_message(self@.files[i]),
    {
        let mut units: Vec<CompileUnit> = Vec::new();
        let ghost files = self@.files;
        for i in 0..self.files.len()
            invariant
                files == self@.files,
                files.len() == self.files@.len(),
                all_named(files.take(i as int), out_dir@),
                units@.map_values(|u: CompileUnit| unit_view(u)) == units_for(
                    files.take(i as int),
                    src_dir@,
                    out_dir@,
                ),
        {
            let file = self.files[i].as_str();
            assert(file@ == files[i as int]);
            match object_path(out_dir, file) {
                Some(object) => {
                    let source = join(src_dir, file);
                    let ghost before = units@.map_values(|u: CompileUnit| unit_view(u));
                    units.push(CompileUnit { source, object });
                    assert(units@.map_values(|u: CompileUnit| unit_view(u)) =~= before.push(
                        (source@, object@),
                    ));
                    assert(units_for(files.take(i + 1), src_dir@, out_dir@) =~= units_for(
                        files.take(i as int),
                        src_dir@,
                        out_dir@,
                    ).push((source@, object@)));
                    assert forall|j: int| 0 <= j < i + 1 implies object_path_of(
                        out_dir@,
                        #[trigger] files.take(i + 1)[j],
                    ) is Some by {
                        if j < i {
                            assert(files.take(i + 1)[j] == files.take(i as int)[j]);
                        }
                    }
                },
                None => {
                    let mut e = String::new();
                    push_str(&mut e, "source path has no file name: ");
                    push_str(&mut e, file);
                    assert(object_path_of(out_dir@, files[i as int]) is None);
                    assert(e@ == unnamed_source_message(files[i as int]));
                    return Err(e);
                },
            }
        }
        assert(files.take(files.len() as int) == files);
        Ok(units)
    }

    /// The command that archives `objs` into `lib` under `out_dir`: the
    /// program and its arguments. `ar_var` is the host build's `AR`, and
    /// `host_is_msvc` tells whether the platform defaults to the MSVC style.
    pub fn archive_command(
        &self,
        out_dir: &str,
        lib: &str,
        objs: &Vec<String>,
        ar_var: Option<&str>,
        host_is_msvc: bool,
    ) -> (r: (String, Vec<String>))
        ensures
            r.0@ == archiver_program(self@, match ar_var { Some(a) => Some(a@), None => None }, host_is_msvc),
            r.1.deep_view() == archiver_args(resolved_msvc(self@, host_is_msvc), out_dir@, lib@, objs.deep_view()),
    {
        let is_msvc = match self.archiver_is_msvc {
            Some(m) => m,
            None => host_is_msvc,
        };
        let program = match &self.archiver {
            Some(a) => a.clone(),
            None => match ar_var {
                Some(a) => owned(a),
                None => if is_msvc {
                    owned("lib")
                } else {
                    owned("ar")
                },
            },
        };
        let mut args: Vec<String> = Vec::new();
        let dest = join(out_dir, lib);
        if is_msvc {
            let mut out = owned("/OUT:");
            push_str(&mut out, dest.as_str());
            push_owned(&mut args, out);
        } else {
            push_owned(&mut args, owned("crus"));
            push_owned(&mut args, dest);
        }
        let ghost head = args.deep_view();
        for i in 0..objs.len()
            invariant
                args.deep_view() == head + objs.deep_view().take(i as int),
        {
            push_owned(&mut args, objs[i].clone());
            assert(objs.deep_view().take(i + 1) =~= objs.deep_view().take(i as int).push(objs@[i as int]@));
        }
        assert(objs.deep_view().take(objs.len() as int) == objs.deep_view());
        assert(archiver_args(is_msvc, out_dir@, lib@, objs.deep_view()) =~= head + objs.deep_view());
        (program, args)
    }
}

/// The assembler's full argument list for `unit`: `args`, the source, `-o`
/// and the object.
pub fn unit_args(args: &Vec<String>, unit: &CompileUnit) -> (r: Vec<String>)
    ensures
        r.deep_view() == unit_command(args.deep_view(), unit_view(*unit)),
{
    let mut r: Vec<String> = Vec::new();
    for i in 0..args.len()
        invariant
            r.deep_view() == args.deep_view().take(i as int),
    {
        push_owned(&mut r, args[i].clone());
        assert(args.deep_view().take(i + 1) =~= args.deep_view().take(i as int).push(args@[i as int]@));
    }
    assert(args.deep_view().take(args.len() as int) == args.deep_view());
    push_owned(&mut r, unit.source.clone());
    push_owned(&mut r, owned("-o"));
    push_owned(&mut r, unit.object.clone());
    assert(r.deep_view() =~= unit_command(args.deep_view(), unit_view(*unit)));
    r
}

fn unset(name: &str) -> (r: String)
    ensures
        r@ == unset_message(name@),
{
    let mut r = owned(name);
    push_str(&mut r, " must be set");
    r
}

impl Build {
    /// The configured assembler path, if any.
    pub fn nasm_path(&self) -> (r: Option<String>)
        ensures
            opt_view(r) == self@.nasm,
    {
        self.nasm.clone()
    }

    /// The minimum assembler version accepted.
    pub fn get_min_version(&self) -> (r: Version)
        ensures
            r == self@.min_version,
    {
        self.min_version
    }
}

/// The argument list only grows at its end: a flag added to a
/// configuration lands after everything that was there, which keeps its
/// place and order.
pub proof fn lemma_added_flag_appends(b: BuildView, t: Seq<char>, f: Seq<char>)
    ensures
        args_for(BuildView { flags: b.flags.push(f), ..b }, t) == args_for(b, t).push(f),
        args_for(b, t) == args_for(BuildView { flags: b.flags.push(f), ..b }, t).drop_last(),
{
    assert(args_for(BuildView { flags: b.flags.push(f), ..b }, t) =~= args_for(b, t).push(f));
}

/// The argument list keeps the added flags verbatim and in order, after the
/// format flag and the debug flag if debug information is on.
pub proof fn lemma_args_keep_flags_in_order(b: BuildView, t: Seq<char>)
    ensures
        args_for(b, t).len() == 1 + (if b.debug { 1int } else { 0int }) + b.flags.len(),
        args_for(b, t)[0] == triple_flags(t).0,
        b.debug ==> args_for(b, t)[1] == triple_flags(t).1,
        forall|i: int| 0 <= i < b.flags.len() ==> args_for(b, t)[i + if b.debug { 2int } else { 1int }]
            == #[trigger] b.flags[i],
{
}

/// The archiver uses the MSVC librarian's syntax exactly when the resolved
/// flag says so, and an explicit setting wins over the platform's default.
pub proof fn lemma_archive_style_follows_flag(
    b: BuildView,
    host_is_msvc: bool,
    out_dir: Seq<char>,
    lib: Seq<char>,
    objs: Seq<Seq<char>>,
)
    ensures
        b.archiver_is_msvc matches Some(m) ==> resolved_msvc(b, host_is_msvc) == m,
        b.archiver_is_msvc is None ==> resolved_msvc(b, host_is_msvc) == host_is_msvc,
        has_prefix(archiver_args(resolved_msvc(b, host_is_msvc), out_dir, lib, objs)[0], "/OUT:"@)
            <==> resolved_msvc(b, host_is_msvc),
        !resolved_msvc(b, host_is_msvc) <==> archiver_args(resolved_msvc(b, host_is_msvc), out_dir, lib, objs)[0]
            == "crus"@,
{
    reveal_strlit("/OUT:");
    reveal_strlit("crus");
    let a = archiver_args(resolved_msvc(b, host_is_msvc), out_dir, lib, objs)[0];
    if resolved_msvc(b, host_is_msvc) {
        assert(a.take(5) =~= "/OUT:"@);
        assert(a[0] != "crus"@[0]);
    } else {
        assert(a == "crus"@);
    }
}

} // verus!
