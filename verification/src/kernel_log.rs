//! Where the sing-box kernel writes its log, and the log section of its
//! configuration.

use vstd::prelude::*;
use crate::json::{
    key_index, law_get_after_insert, law_get_after_insert_if_absent, law_get_other_after_insert,
    law_insert_idempotent, lemma_key_index, lemma_key_index_is, obj_get, obj_insert,
    obj_insert_if_absent, JsonObject, JsonValue, SpecJson,
};

verus! {

/// File name of the kernel log inside the kernel's work directory.
pub const KERNEL_LOG_FILE_NAME: &'static str = "sing-box.log";

/// `out` is `dir` joined with `name`: `name` follows `dir` directly where
/// `dir` is empty or ends with `/`; otherwise a separator (`/` or `\\`,
/// whichever the platform uses) may stand between them, and one does where
/// `dir` ends with none of `/`, `\\` and `:`.
pub open spec fn joined_path(dir: Seq<char>, name: Seq<char>, out: Seq<char>) -> bool {
    if dir.len() == 0 || dir.last() == '/' {
        out == dir + name
    } else if dir.last() == '\\' || dir.last() == ':' {
        ||| out == dir + name
        ||| out == dir + seq!['/'] + name
        ||| out == dir + seq!['\\'] + name
    } else {
        ||| out == dir + seq!['/'] + name
        ||| out == dir + seq!['\\'] + name
    }
}

/// `dir` may carry a Windows verbatim prefix (`\\?\`), under which
/// `Path::join` also removes `.` and `..` components.
pub open spec fn may_be_verbatim(dir: Seq<char>) -> bool {
    &&& dir.len() >= 3
    &&& (dir[0] == '\\' || dir[0] == '/')
    &&& (dir[1] == '\\' || dir[1] == '/')
    &&& dir[2] == '?'
}

/// `s` ends with `suffix`.
pub open spec fn ends_with(s: Seq<char>, suffix: Seq<char>) -> bool {
    suffix.len() <= s.len() && s.skip(s.len() - suffix.len()) == suffix
}

/// The names `.` and `..`, which a verbatim path drops or resolves.
pub open spec fn is_dot_name(name: Seq<char>) -> bool {
    name == seq!['.'] || name == seq!['.', '.']
}

/// A file name that `Path::join` appends rather than substitutes: not
/// empty, without separators and without a drive prefix.
pub open spec fn plain_file_name(name: Seq<char>) -> bool {
    name.len() > 0 && forall|i: int|
        0 <= i < name.len() ==> #[trigger] name[i] != '/' && name[i] != '\\' && name[i] != ':'
}

/// Wraps `Path::join` followed by `to_string_lossy`: appends a relative
/// file name to a directory, adding the platform's separator where the
/// directory does not end with one (and, on Windows, is not a bare drive
/// such as `C:`).  Which separator is added depends on the platform, so
/// the contract allows either.  Under a Windows verbatim prefix the join
/// rebuilds the path from its components with `.` and `..` removed, so
/// there only the end of the result is stated: the name itself, which is
/// one ordinary component where it is neither `.` nor `..`.
#[verifier::external_body]
fn path_join(dir: &str, name: &str) -> (out: String)
    requires
        plain_file_name(name@),
    ensures
        !may_be_verbatim(dir@) ==> joined_path(dir@, name@, out@),
        !is_dot_name(name@) ==> ends_with(out@, name@),
{
    std::path::Path::new(dir).join(name).to_string_lossy().to_string()
}

/// Path of the kernel log inside the kernel's work directory.  It always
/// ends with the log's file name; under a Windows verbatim prefix, where
/// the directory part is normalised, nothing more is stated.
pub fn kernel_log_output_path(work_dir: &str) -> (out: String)
    ensures
        !may_be_verbatim(work_dir@) ==> joined_path(work_dir@, KERNEL_LOG_FILE_NAME@, out@),
        ends_with(out@, KERNEL_LOG_FILE_NAME@),
{
    proof {
        reveal_strlit("sing-box.log");
    }
    path_join(work_dir, KERNEL_LOG_FILE_NAME)
}

/// The log object `l` with logging defaults filled in and the output set to
/// `out`.
pub open spec fn log_section_spec(l: Seq<(Seq<char>, SpecJson)>, out: Seq<char>) -> Seq<
    (Seq<char>, SpecJson),
> {
    obj_insert(
        obj_insert_if_absent(
            obj_insert_if_absent(
                obj_insert_if_absent(l, "disabled"@, SpecJson::Bool(false)),
                "level"@,
                SpecJson::Str("info"@),
            ),
            "timestamp"@,
            SpecJson::Bool(true),
        ),
        "output"@,
        SpecJson::Str(out),
    )
}

/// The configuration `cfg` with its log section made an object (an empty
/// one where it was missing or not an object), given logging defaults and
/// written to `out`.
pub open spec fn kernel_log_spec(cfg: Seq<(Seq<char>, SpecJson)>, out: Seq<char>) -> Seq<
    (Seq<char>, SpecJson),
> {
    let base = match obj_get(cfg, "log"@) {
        Some(SpecJson::Object(l)) => l,
        _ => seq![],
    };
    obj_insert(cfg, "log"@, SpecJson::Object(log_section_spec(base, out)))
}

/// Makes the kernel log to `sing-box.log` in its work directory: the log
/// section becomes an object, keeps its own `disabled`, `level` and
/// `timestamp` settings or gets `false`, `"info"` and `true`, and its
/// `output` is set to the log path.
pub fn ensure_kernel_log_output(config_obj: &mut JsonObject, work_dir: &str)
    ensures
        exists|out: Seq<char>|
            (!may_be_verbatim(work_dir@) ==> joined_path(work_dir@, KERNEL_LOG_FILE_NAME@, out))
                && ends_with(out, KERNEL_LOG_FILE_NAME@) && final(config_obj).model()
                == kernel_log_spec(old(config_obj).model(), out),
{
    let output = kernel_log_output_path(work_dir);
    let ghost cfg = config_obj.model();
    let taken = config_obj.take("log");
    let ghost after_take = config_obj.model();
    let mut log_obj = match taken {
        Some(JsonValue::Object(o)) => o,
        _ => JsonObject::new(),
    };
    proof {
        lemma_key_index(cfg, "log"@);
        assert(log_obj.model() == match obj_get(cfg, "log"@) {
            Some(SpecJson::Object(l)) => l,
            _ => seq![],
        });
    }
    log_obj.insert_if_absent(String::from_str("disabled"), JsonValue::Bool(false));
    log_obj.insert_if_absent(String::from_str("level"), JsonValue::String(String::from_str("info")));
    log_obj.insert_if_absent(String::from_str("timestamp"), JsonValue::Bool(true));
    let ghost out = output@;
    log_obj.insert(String::from_str("output"), JsonValue::String(output));
    let ghost section = log_obj.model();
    config_obj.insert(String::from_str("log"), JsonValue::Object(log_obj));
    proof {
        match key_index(cfg, "log"@) {
            Some(i) => {
                lemma_key_index(cfg, "log"@);
                assert forall|m: int| 0 <= m < i implies after_take[m].0 != "log"@ by {
                    assert(after_take[m] == cfg[m]);
                }
                lemma_key_index_is(after_take, "log"@, i);
                assert(after_take.update(i, ("log"@, SpecJson::Object(section))) =~= cfg.update(
                    i,
                    ("log"@, SpecJson::Object(section)),
                ));
            },
            None => {},
        }
        assert(final(config_obj).model() == kernel_log_spec(cfg, out));
    }
}

proof fn lemma_if_absent_other(e: Seq<(Seq<char>, SpecJson)>, k: Seq<char>, v: SpecJson, k2: Seq<char>)
    requires
        k2 != k,
    ensures
        obj_get(obj_insert_if_absent(e, k, v), k2) == obj_get(e, k2),
{
    lemma_key_index(e, k);
    if key_index(e, k) is None {
        law_get_other_after_insert(e, k, v, k2);
        lemma_key_index(e, k2);
        lemma_key_index_is(e, k, e.len() as int);
    }
}

proof fn lemma_if_absent_present(e: Seq<(Seq<char>, SpecJson)>, k: Seq<char>, v: SpecJson)
    requires
        obj_get(e, k) is Some,
    ensures
        obj_insert_if_absent(e, k, v) == e,
{
}

/// The settings that the log section holds after `ensure_kernel_log_output`:
/// the output is `out`, and `disabled`, `level` and `timestamp` are the
/// section's own settings or `false`, `"info"` and `true`.
pub proof fn law_kernel_log_settings(cfg: Seq<(Seq<char>, SpecJson)>, out: Seq<char>)
    ensures
        obj_get(kernel_log_spec(cfg, out), "log"@) matches Some(SpecJson::Object(l)) && {
            let base = match obj_get(cfg, "log"@) {
                Some(SpecJson::Object(b)) => b,
                _ => seq![],
            };
            &&& obj_get(l, "output"@) == Some(SpecJson::Str(out))
            &&& obj_get(l, "disabled"@) == match obj_get(base, "disabled"@) {
                Some(d) => Some(d),
                None => Some(SpecJson::Bool(false)),
            }
            &&& obj_get(l, "level"@) == match obj_get(base, "level"@) {
                Some(d) => Some(d),
                None => Some(SpecJson::Str("info"@)),
            }
            &&& obj_get(l, "timestamp"@) == match obj_get(base, "timestamp"@) {
                Some(d) => Some(d),
                None => Some(SpecJson::Bool(true)),
            }
        },
{
    reveal_strlit("log");
    reveal_strlit("output");
    reveal_strlit("disabled");
    reveal_strlit("level");
    reveal_strlit("timestamp");
    let base = match obj_get(cfg, "log"@) {
        Some(SpecJson::Object(b)) => b,
        _ => seq![],
    };
    let d1 = obj_insert_if_absent(base, "disabled"@, SpecJson::Bool(false));
    let d2 = obj_insert_if_absent(d1, "level"@, SpecJson::Str("info"@));
    let d3 = obj_insert_if_absent(d2, "timestamp"@, SpecJson::Bool(true));
    let l = log_section_spec(base, out);
    law_get_after_insert(cfg, "log"@, SpecJson::Object(l));
    law_get_after_insert(d3, "output"@, SpecJson::Str(out));
    assert("output"@.len() == 6 && "disabled"@.len() == 8 && "level"@.len() == 5);
    assert("timestamp"@.len() == 9);
    assert("output"@ != "disabled"@ && "output"@ != "level"@ && "output"@ != "timestamp"@);
    law_get_other_after_insert(d3, "output"@, SpecJson::Str(out), "disabled"@);
    law_get_other_after_insert(d3, "output"@, SpecJson::Str(out), "level"@);
    law_get_other_after_insert(d3, "output"@, SpecJson::Str(out), "timestamp"@);
    law_get_after_insert_if_absent(base, "disabled"@, SpecJson::Bool(false));
    lemma_if_absent_other(d1, "level"@, SpecJson::Str("info"@), "disabled"@);
    lemma_if_absent_other(d2, "timestamp"@, SpecJson::Bool(true), "disabled"@);
    lemma_if_absent_other(base, "disabled"@, SpecJson::Bool(false), "level"@);
    law_get_after_insert_if_absent(d1, "level"@, SpecJson::Str("info"@));
    lemma_if_absent_other(d2, "timestamp"@, SpecJson::Bool(true), "level"@);
    lemma_if_absent_other(base, "disabled"@, SpecJson::Bool(false), "timestamp"@);
    lemma_if_absent_other(d1, "level"@, SpecJson::Str("info"@), "timestamp"@);
    law_get_after_insert_if_absent(d2, "timestamp"@, SpecJson::Bool(true));
}

/// Ensuring the log output twice is ensuring it once.
pub proof fn law_kernel_log_idempotent(cfg: Seq<(Seq<char>, SpecJson)>, out: Seq<char>)
    ensures
        kernel_log_spec(kernel_log_spec(cfg, out), out) == kernel_log_spec(cfg, out),
{
    reveal_strlit("log");
    reveal_strlit("output");
    reveal_strlit("disabled");
    reveal_strlit("level");
    reveal_strlit("timestamp");
    law_kernel_log_settings(cfg, out);
    let base = match obj_get(cfg, "log"@) {
        Some(SpecJson::Object(b)) => b,
        _ => seq![],
    };
    let l = log_section_spec(base, out);
    let k1 = kernel_log_spec(cfg, out);
    law_get_after_insert(cfg, "log"@, SpecJson::Object(l));
    // the second pass finds `l` and leaves its defaults alone
    lemma_if_absent_present(l, "disabled"@, SpecJson::Bool(false));
    lemma_if_absent_present(l, "level"@, SpecJson::Str("info"@));
    lemma_if_absent_present(l, "timestamp"@, SpecJson::Bool(true));
    let d1 = obj_insert_if_absent(base, "disabled"@, SpecJson::Bool(false));
    let d2 = obj_insert_if_absent(d1, "level"@, SpecJson::Str("info"@));
    let d3 = obj_insert_if_absent(d2, "timestamp"@, SpecJson::Bool(true));
    law_insert_idempotent(d3, "output"@, SpecJson::Str(out));
    assert(log_section_spec(l, out) == l);
    law_insert_idempotent(cfg, "log"@, SpecJson::Object(l));
}

} // verus!
