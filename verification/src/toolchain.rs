//! The command line of the compiler that turns generated source into
//! bitcode.  Reading the environment and running the compiler are left to
//! the caller.

use vstd::prelude::*;

verus! {

/// The processor that code is generated for.
#[derive(Clone, Copy, Debug, PartialEq, Eq, Structural)]
pub enum TargetArch {
    X86_64,
    Aarch64,
}

/// The texts of a list of strings.
pub open spec fn texts(v: Seq<String>) -> Seq<Seq<char>> {
    Seq::new(v.len(), |i: int| v[i]@)
}

fn push_flag(args: &mut Vec<String>, flag: &str)
    ensures
        texts(final(args)@) == texts(old(args)@).push(flag@),
{
    args.push(String::from_str(flag));
    assert(texts(args@) =~= texts(old(args)@).push(flag@));
}

/// The flags that depend on the debug setting: with `full`, the two debug
/// definitions; with `1`, the debug definition and no optimisation; with
/// anything but `1`, optimisation.
pub open spec fn debug_flags(debug: Option<Seq<char>>) -> Seq<Seq<char>> {
    match debug {
        Some(s) => (if s == "full"@ {
            seq!["-DLUISA_DEBUG"@, "-DLUISA_DEBUG_FULL"@]
        } else {
            Seq::empty()
        }) + (if s == "1"@ {
            seq!["-DLUISA_DEBUG"@]
        } else {
            seq!["-O3"@]
        }),
        None => seq!["-O3"@],
    }
}

/// The flags that depend on the processor.
pub open spec fn arch_flags(arch: TargetArch) -> Seq<Seq<char>> {
    match arch {
        TargetArch::X86_64 => seq!["-mavx2"@, "-DLUISA_ARCH_X86_64"@],
        TargetArch::Aarch64 => seq!["-DLUISA_ARCH_ARM64"@],
    }
}

/// The flags of every compilation.
pub open spec fn spec_clang_args(debug: Option<Seq<char>>, arch: TargetArch) -> Seq<Seq<char>> {
    debug_flags(debug) + seq!["-march=native"@, "-std=c++20"@, "-fno-math-errno"@] + arch_flags(
        arch,
    ) + seq!["-ffast-math"@, "-fno-rtti"@, "-fno-exceptions"@, "-fno-stack-protector"@]
}

/// The view of an optional text.
pub open spec fn opt_text(debug: Option<&str>) -> Option<Seq<char>> {
    match debug {
        Some(s) => Some(s@),
        None => None,
    }
}

/// The flags of every compilation, for the debug setting, if there is one,
/// and the processor.
pub fn clang_args(debug: Option<&str>, arch: TargetArch) -> (args: Vec<String>)
    ensures
        texts(args@) == spec_clang_args(opt_text(debug), arch),
{
    let mut args: Vec<String> = Vec::new();
    assert(texts(args@) =~= Seq::<Seq<char>>::empty());
    match debug {
        Some(s) => {
            let setting = String::from_str(s);
            if setting == String::from_str("full") {
                push_flag(&mut args, "-DLUISA_DEBUG");
                push_flag(&mut args, "-DLUISA_DEBUG_FULL");
            }
            if setting == String::from_str("1") {
                push_flag(&mut args, "-DLUISA_DEBUG");
            } else {
                push_flag(&mut args, "-O3");
            }
        },
        None => {
            push_flag(&mut args, "-O3");
        },
    }
    assert(texts(args@) =~= debug_flags(opt_text(debug)));
    push_flag(&mut args, "-march=native");
    push_flag(&mut args, "-std=c++20");
    push_flag(&mut args, "-fno-math-errno");
    match arch {
        TargetArch::X86_64 => {
            push_flag(&mut args, "-mavx2");
            push_flag(&mut args, "-DLUISA_ARCH_X86_64");
        },
        TargetArch::Aarch64 => {
            push_flag(&mut args, "-DLUISA_ARCH_ARM64");
        },
    }
    push_flag(&mut args, "-ffast-math");
    push_flag(&mut args, "-fno-rtti");
    push_flag(&mut args, "-fno-exceptions");
    push_flag(&mut args, "-fno-stack-protector");
    assert(texts(args@) =~= spec_clang_args(opt_text(debug), arch));
    args
}

/// The name of the bitcode file of a target.
pub fn bitcode_name(target: &str) -> (name: String)
    ensures
        name@ == target@ + ".bc"@,
{
    let mut name = String::from_str(target);
    name.append(".bc");
    name
}

/// The whole command line: the flags of every compilation, then the
/// request to compile C++ from `source_file` to bitcode in `target_lib`.
pub fn compile_args(debug: Option<&str>, arch: TargetArch, source_file: &str, target_lib: &str) -> (args:
    Vec<String>)
    ensures
        texts(args@) == spec_clang_args(opt_text(debug), arch) + seq![
            "-c"@,
            "-emit-llvm"@,
            "-x"@,
            "c++"@,
            source_file@,
            "-o"@,
            target_lib@,
        ],
{
    let mut args = clang_args(debug, arch);
    push_flag(&mut args, "-c");
    push_flag(&mut args, "-emit-llvm");
    push_flag(&mut args, "-x");
    push_flag(&mut args, "c++");
    push_flag(&mut args, source_file);
    push_flag(&mut args, "-o");
    push_flag(&mut args, target_lib);
    assert(texts(args@) =~= spec_clang_args(opt_text(debug), arch) + seq![
        "-c"@,
        "-emit-llvm"@,
        "-x"@,
        "c++"@,
        source_file@,
        "-o"@,
        target_lib@,
    ]);
    args
}

/// The prefix that marks a verbatim path on Windows.
pub open spec fn verbatim_prefix() -> Seq<char> {
    seq!['\\', '\\', '?', '\\']
}

/// The path without the verbatim prefix, if it has one.
pub open spec fn without_verbatim_prefix(path: Seq<char>) -> Seq<char> {
    if path.len() >= 4 && path.subrange(0, 4) == verbatim_prefix() {
        path.subrange(4, path.len() as int)
    } else {
        path
    }
}

/// Takes the verbatim prefix off a path that has one.
pub fn strip_verbatim_prefix(path: &str) -> (r: String)
    ensures
        r@ == without_verbatim_prefix(path@),
{
    let len = path.unicode_len();
    if len >= 4 && path.get_char(0) == '\\' && path.get_char(1) == '\\' && path.get_char(2) == '?'
        && path.get_char(3) == '\\' {
        assert(path@.subrange(0, 4) =~= verbatim_prefix());
        String::from_str(path.substring_char(4, len))
    } else {
        proof {
            if path@.len() >= 4 && path@.subrange(0, 4) == verbatim_prefix() {
                assert(path@.subrange(0, 4)[0] == '\\');
                assert(path@.subrange(0, 4)[1] == '\\');
                assert(path@.subrange(0, 4)[2] == '?');
                assert(path@.subrange(0, 4)[3] == '\\');
            }
        }
        String::from_str(path)
    }
}

} // verus!
