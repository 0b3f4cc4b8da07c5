//! The configuration store: which files are listed, what a file's text
//! becomes when it is read, and what is written for a value.

use crate::error::BridgeError;
use crate::error::ErrorKind;
use crate::error::Failure;
use crate::host::expected;
use crate::host::from_dynamic;
use crate::host::layered;
use crate::host::to_dynamic;
use crate::host::tree;
use crate::host::HostHeap;
use crate::json::parse;
use crate::json::parsed;
use crate::json::pretty_text;
use crate::json::printed;
use crate::json::serialize;
use crate::text::ascending;
use crate::text::has_suffix;
use crate::text::precedes;
use crate::text::text_ends_with;
use crate::text::text_le;
use crate::value::DynamicValue;
use crate::value::Json;
use vstd::multiset::Multiset;
use vstd::prelude::*;

verus! {

/// The texts of a sequence of paths.
pub open spec fn texts(paths: Seq<String>) -> Seq<Seq<char>> {
    Seq::new(paths.len(), |i: int| paths[i]@)
}

/// The path names a configuration file: it ends in `.json`.
pub open spec fn is_config_path(path: Seq<char>) -> bool {
    text_ends_with(path, ".json"@)
}

/// The configuration files among the entries of a directory search, each
/// as often as it was found. An entry without a path, one that could not be
/// read or is no text, counts for nothing, and so does a path that names no
/// configuration file.
pub open spec fn found_paths(entries: Seq<Option<String>>) -> Multiset<Seq<char>>
    decreases entries.len(),
{
    if entries.len() == 0 {
        Multiset::empty()
    } else {
        let front = found_paths(entries.drop_last());
        match entries.last() {
            Some(path) => if is_config_path(path@) {
                front.insert(path@)
            } else {
                front
            },
            None => front,
        }
    }
}

/// What is found names a configuration file.
pub proof fn lemma_found_paths_are_config_paths(entries: Seq<Option<String>>, path: Seq<char>)
    requires
        found_paths(entries).count(path) > 0,
    ensures
        is_config_path(path),
    decreases entries.len(),
{
    if entries.len() > 0 {
        let front = found_paths(entries.drop_last());
        if front.count(path) > 0 {
            lemma_found_paths_are_config_paths(entries.drop_last(), path);
        }
    }
}

/// The search pattern for the JSON files that are immediate children of a
/// directory.
pub fn config_pattern(dir: &str) -> (r: String)
    ensures
        r@ == dir@ + "/*.json"@,
{
    let mut pattern = dir.to_owned();
    pattern.append("/*.json");
    pattern
}

/// Puts a path into an ascending list, at its place.
fn insert_ascending(list: &mut Vec<String>, path: String)
    requires
        ascending(texts(old(list)@)),
    ensures
        ascending(texts(final(list)@)),
        texts(final(list)@).to_multiset() == texts(old(list)@).to_multiset().insert(path@),
{
    let mut at: usize = 0;
    while at < list.len() && precedes(list[at].as_str(), path.as_str())
        invariant
            at <= list.len(),
            forall|k: int| 0 <= k < at ==> text_le(#[trigger] list@[k]@, path@),
        decreases list.len() - at,
    {
        at += 1;
    }
    let ghost before = texts(list@);
    list.insert(at, path);
    proof {
        let after = texts(list@);
        assert(after =~= before.insert(at as int, path@));
        vstd::seq_lib::to_multiset_insert(before, at as int, path@);
        assert forall|i: int, j: int| 0 <= i < j < after.len() implies text_le(
            after[i],
            after[j],
        ) by {
            if i == at && j > at + 1 {
                // the scan stopped at `at`: the path is no later than what stood there
                crate::text::lemma_text_le_is_total_order(
                    path@,
                    before[at as int],
                    before[j - 1],
                );
            }
        }
    }
}

/// Lists the configuration files that a directory search found, in
/// ascending order. `found` is `None` where the search could not be made;
/// an entry is `None` where it could not be read or its path is no text.
/// Failures of the search are not reported: they leave the list shorter, or
/// empty. Nothing is listed that does not end in `.json`.
pub fn list_configs(found: Option<Vec<Option<String>>>) -> (r: Vec<String>)
    ensures
        ascending(texts(r@)),
        texts(r@).to_multiset() == (match found {
            Some(entries) => found_paths(entries@),
            None => Multiset::empty(),
        }),
        forall|i: int| 0 <= i < r@.len() ==> is_config_path(#[trigger] r@[i]@),
{
    let mut out: Vec<String> = Vec::new();
    proof {
        texts(out@).to_multiset_ensures();
    }
    match found {
        None => out,
        Some(entries) => {
            let mut rest = entries;
            loop
                invariant
                    ascending(texts(out@)),
                    found_paths(rest@).add(texts(out@).to_multiset()) == found_paths(entries@),
                ensures
                    rest@.len() == 0,
                decreases rest.len(),
            {
                match rest.pop() {
                    None => {
                        break ;
                    },
                    Some(entry) => {
                        match entry {
                            None => {},
                            Some(path) => {
                                if has_suffix(path.as_str(), ".json") {
                                    insert_ascending(&mut out, path);
                                    assert(found_paths(rest@).add(texts(out@).to_multiset())
                                        =~= found_paths(entries@));
                                }
                            },
                        }
                    },
                }
            }
            proof {
                assert forall|i: int| 0 <= i < out@.len() implies is_config_path(
                    #[trigger] out@[i]@,
                ) by {
                    texts(out@).to_multiset_ensures();
                    assert(texts(out@)[i] == out@[i]@);
                    lemma_found_paths_are_config_paths(entries@, out@[i]@);
                }
            }
            out
        },
    }
}

/// What reading a configuration file comes to. `loaded` is the file's text,
/// or the cause for which it could not be read. A text that is not
/// well-formed JSON is a parse failure; both failures name the path.
pub fn read_config(path: &str, loaded: Result<String, String>) -> (r: Result<
    DynamicValue,
    BridgeError,
>)
    ensures
        match loaded {
            Err(cause) => r matches Err(e) && e.kind == ErrorKind::Io && e.message@ == "读取失败 "@
                + path@ + ": "@ + cause@,
            Ok(text) => match parsed(text@) {
                Ok(tree) => r matches Ok(value) && value@ == tree && value.wf(),
                Err(cause) => r matches Err(e) && e.kind == ErrorKind::Parse && e.message@
                    == "JSON 格式错误 "@ + path@ + ": "@ + cause,
            },
        },
{
    match loaded {
        Err(cause) => Err(BridgeError::about(ErrorKind::Io, "读取失败 ", path, cause.as_str())),
        Ok(text) => match parse(text.as_str()) {
            Ok(value) => Ok(value),
            Err(e) => Err(
                BridgeError::about(ErrorKind::Parse, "JSON 格式错误 ", path, e.message.as_str()),
            ),
        },
    }
}

/// The text to write for a value: indented JSON. A value that cannot be
/// printed is a conversion failure.
pub fn save_config(value: &DynamicValue) -> (r: Result<String, BridgeError>)
    ensures
        match printed(value@, pretty_text(value@)) {
            Ok(text) => r matches Ok(out) && out@ == text,
            Err(cause) => r matches Err(e) && e.kind == ErrorKind::Conversion && e.message@
                == "JSON 序列化失败: "@ + cause,
        },
{
    match serialize(value) {
        Ok(text) => Ok(text),
        Err(e) => Err(BridgeError::new(ErrorKind::Conversion, "JSON 序列化失败: ", e.message.as_str())),
    }
}

/// What writing a configuration file comes to. `written` is the cause for
/// which the file could not be written, where it could not.
pub fn confirm_save(path: &str, written: Result<(), String>) -> (r: Result<(), BridgeError>)
    ensures
        match written {
            Ok(_) => r is Ok,
            Err(cause) => r matches Err(e) && e.kind == ErrorKind::Io && e.message@ == "写入失败 "@
                + path@ + ": "@ + cause@,
        },
{
    match written {
        Ok(_) => Ok(()),
        Err(cause) => Err(BridgeError::about(ErrorKind::Io, "写入失败 ", path, cause.as_str())),
    }
}

/// What reading a configuration file into host objects comes to: as
/// `read_config`, and the value is handed on in its host form, a heap and
/// the place of the object that holds it.
pub fn read_host_config(path: &str, loaded: Result<String, String>) -> (r: Result<
    (HostHeap, usize),
    BridgeError,
>)
    ensures
        match loaded {
            Err(cause) => r matches Err(e) && e.kind == ErrorKind::Io && e.message@ == "读取失败 "@
                + path@ + ": "@ + cause@,
            Ok(text) => match parsed(text@) {
                Ok(found) => r matches Ok(host) && layered(host.0.objects@) && tree(
                    host.0.objects@,
                    host.1 as int,
                    Set::empty(),
                ) == Ok::<Json, crate::error::ConversionFault>(found),
                Err(cause) => r matches Err(e) && e.kind == ErrorKind::Parse && e.message@
                    == "JSON 格式错误 "@ + path@ + ": "@ + cause,
            },
        },
{
    match read_config(path, loaded) {
        Ok(value) => Ok(from_dynamic(&value)),
        Err(e) => Err(e),
    }
}

/// The text to write for what a host object holds. A host value without a
/// JSON form is a conversion failure, found before anything is printed.
pub fn save_host_config(heap: &HostHeap, root: usize) -> (r: Result<String, BridgeError>)
    ensures
        match tree(heap.objects@, root as int, Set::empty()) {
            Err(fault) => r matches Err(e) && e@ == (Failure {
                kind: ErrorKind::Conversion,
                message: "无法转换 Python 对象为 JSON: "@ + fault.text(),
            }),
            Ok(value) => match pretty_text(value) {
                Ok(text) => r matches Ok(out) && out@ == text,
                Err(cause) => r matches Err(e) && e@ == (Failure {
                    kind: ErrorKind::Conversion,
                    message: "JSON 序列化失败: "@ + cause,
                }),
            },
        },
{
    match to_dynamic(heap, root) {
        Ok(value) => save_config(&value),
        Err(fault) => Err(
            BridgeError::new(
                ErrorKind::Conversion,
                "无法转换 Python 对象为 JSON: ",
                fault.describe().as_str(),
            ),
        ),
    }
}

} // verus!
