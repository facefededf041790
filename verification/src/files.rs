//! The generator's result: the text of each emitted file under the
//! file's name, in a hash map with the Fx hasher.

use vstd::prelude::*;
use vstd::string::StringExecFns;
use fxhash::FxHashMap;
use crate::generator::code_header;
use crate::generator::ext_has_feature;
use crate::generator::has_feature;
use crate::generator::write_code_header;
use crate::generator::Output;

verus! {

/// The hasher of the `fxhash` crate. It starts from a fixed state and is
/// fed by the key alone, so equal keys hash alike in every process.
#[verifier::external_type_specification]
#[verifier::external_body]
pub struct ExFxHasher(fxhash::FxHasher);

/// The standard library's builder of hashers from their `Default`.
#[verifier::external_type_specification]
#[verifier::external_body]
#[verifier::reject_recursive_types(H)]
pub struct ExBuildHasherDefault<H>(core::hash::BuildHasherDefault<H>);

/// The files that a map holds: the text of each file under its name.
pub uninterp spec fn files(m: FxHashMap<String, String>) -> Map<Seq<char>, Seq<char>>;

/// No file at all.
pub open spec fn no_files() -> Map<Seq<char>, Seq<char>> {
    Map::empty()
}

/// `FxHashMap::default()`: a map with the Fx hasher that holds nothing.
#[verifier::external_body]
fn new_file_map() -> (m: FxHashMap<String, String>)
    ensures
        files(m) == no_files(),
{
    FxHashMap::default()
}

/// `HashMap::insert` on a map with the Fx hasher: afterwards the map
/// holds `text` under `name`, in place of what it held under that name
/// before, and everything else as before.
#[verifier::external_body]
fn insert_file(m: &mut FxHashMap<String, String>, name: String, text: String)
    ensures
        files(*final(m)) == files(*old(m)).insert(name@, text@),
{
    m.insert(name, text);
}

/// What the generator wrote for one namespace of the protocol.
pub struct NamespaceText {
    /// The namespace's header, which names its module and its file.
    pub header: String,
    /// The text of the namespace's module.
    pub text: String,
}

/// The files of the first `n` namespaces: the text of each under its
/// header followed by `.rs`.
pub open spec fn namespace_files(namespaces: Seq<NamespaceText>, n: nat) -> Map<
    Seq<char>,
    Seq<char>,
>
    recommends
        n <= namespaces.len(),
    decreases n,
{
    if n == 0 {
        Map::empty()
    } else {
        namespace_files(namespaces, (n - 1) as nat).insert(
            namespaces[n - 1].header@ + ".rs"@,
            namespaces[n - 1].text@,
        )
    }
}

/// The lines that declare the module of one namespace: the feature that
/// it sits behind, where it has one, and the module itself.
pub open spec fn module_lines(header: Seq<char>) -> Seq<char> {
    (if has_feature(header) {
        "#[cfg(feature = \""@ + header + "\")]"@ + seq!['\n']
    } else {
        Seq::empty()
    }) + "pub mod "@ + header + ";"@ + seq!['\n']
}

/// The module lines of the first `n` namespaces, in order.
pub open spec fn modules_text(namespaces: Seq<NamespaceText>, n: nat) -> Seq<char>
    recommends
        n <= namespaces.len(),
    decreases n,
{
    if n == 0 {
        Seq::empty()
    } else {
        modules_text(namespaces, (n - 1) as nat) + module_lines(namespaces[n - 1].header@)
    }
}

/// The lines that open the main module, after the header.
pub open spec fn imports_text() -> Seq<char> {
    "use std::convert::{TryFrom, TryInto};"@ + seq!['\n'] + "use crate::errors::ParseError;"@
        + seq!['\n'] + "use crate::x11_utils::ExtInfoProvider;"@ + seq!['\n'] + seq!['\n']
}

/// The text of the main module: the header, the imports, the module of
/// each namespace, an empty line, and the text on errors and events.
pub open spec fn main_text(namespaces: Seq<NamespaceText>, error_events: Seq<char>) -> Seq<char> {
    code_header() + imports_text() + modules_text(namespaces, namespaces.len()) + seq!['\n']
        + error_events
}

/// Every emitted file: one for each namespace, and `mod.rs` for the main
/// module.
pub open spec fn generated_files(namespaces: Seq<NamespaceText>, error_events: Seq<char>) -> Map<
    Seq<char>,
    Seq<char>,
> {
    namespace_files(namespaces, namespaces.len()).insert(
        "mod.rs"@,
        main_text(namespaces, error_events),
    )
}

/// Collects the emitted files: the text of each namespace, in the order
/// given, under its own file name, and the main module, which declares
/// them all and ends with the text on errors and events.
pub fn generate(namespaces: &Vec<NamespaceText>, error_events: &str) -> (out_map: FxHashMap<
    String,
    String,
>)
    ensures
        files(out_map) == generated_files(namespaces@, error_events@),
{
    let mut out_map = new_file_map();

    let mut main_out = Output::new();
    write_code_header(&mut main_out);
    main_out.outln("use std::convert::{TryFrom, TryInto};");
    main_out.outln("use crate::errors::ParseError;");
    main_out.outln("use crate::x11_utils::ExtInfoProvider;");
    main_out.outln("");
    proof {
        reveal_strlit("");
        assert(main_out@ =~= code_header() + imports_text());
    }

    let mut i: usize = 0;
    while i < namespaces.len()
        invariant
            i <= namespaces@.len(),
            files(out_map) == namespace_files(namespaces@, i as nat),
            main_out@ == code_header() + imports_text() + modules_text(namespaces@, i as nat),
        decreases namespaces@.len() - i,
    {
        let ns = &namespaces[i];
        let mut file_name = ns.header.clone();
        file_name.append(".rs");
        insert_file(&mut out_map, file_name, ns.text.clone());

        let ghost before = main_out@;
        if ext_has_feature(ns.header.as_str()) {
            let mut line = String::from_str("#[cfg(feature = \"");
            line.append(ns.header.as_str());
            line.append("\")]");
            main_out.outln(line.as_str());
        }
        let mut line = String::from_str("pub mod ");
        line.append(ns.header.as_str());
        line.append(";");
        main_out.outln(line.as_str());
        assert(main_out@ =~= before + module_lines(ns.header@));
        i += 1;
    }
    main_out.outln("");
    main_out.out(error_events);
    proof {
        reveal_strlit("");
        assert(main_out@ =~= main_text(namespaces@, error_events@));
    }

    insert_file(&mut out_map, String::from_str("mod.rs"), main_out.into_data());
    out_map
}

} // verus!
