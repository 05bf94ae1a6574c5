//! The command line: a bare file path opens it with the reader's own local storage;
//! `--vault=<root> --key=<key> <file>` or `--annotations-file=<path>
//! [--progress-file=<path>] <file>` open it on another application's behalf, routing its
//! annotations and reading position into that application's storage.

use vstd::prelude::*;

use crate::host::HostOverride;
use crate::text::{concat_str, strip_prefix, is_prefix};

verus! {

/// How the document's annotations should be routed, as the command line asked (before the
/// document's content hash is known).
pub enum OverrideRequest {
    /// A vault root and the entry key inside it.
    Vault { root: String, key: String },
    /// Explicit annotation (and, optionally, reading-position) file paths.
    ExternalPaths { annotations: String, progress: Option<String> },
}

/// What a command line asked for.
pub enum ParsedArgs {
    /// No file: just show the launcher.
    Launcher,
    /// Open `file`, optionally on another application's behalf.
    Open { file: String, host_override: Option<OverrideRequest> },
}

/// The abstract value of an [`OverrideRequest`].
pub enum OverrideRequestView {
    Vault { root: Seq<char>, key: Seq<char> },
    ExternalPaths { annotations: Seq<char>, progress: Option<Seq<char>> },
}

/// The abstract value of a [`ParsedArgs`].
pub enum ParsedArgsView {
    Launcher,
    Open { file: Seq<char>, host_override: Option<OverrideRequestView> },
}

/// The options and file gathered from a command line so far.
pub struct ArgScan {
    pub vault: Option<Seq<char>>,
    pub key: Option<Seq<char>>,
    pub annotations: Option<Seq<char>>,
    pub progress: Option<Seq<char>>,
    pub file: Option<Seq<char>>,
}

pub open spec fn opt_view(o: Option<String>) -> Option<Seq<char>> {
    match o {
        Some(s) => Some(s@),
        None => None,
    }
}

impl OverrideRequest {
    pub open spec fn view(&self) -> OverrideRequestView {
        match self {
            OverrideRequest::Vault { root, key } => OverrideRequestView::Vault { root: root@, key: key@ },
            OverrideRequest::ExternalPaths { annotations, progress } => OverrideRequestView::ExternalPaths {
                annotations: annotations@,
                progress: opt_view(*progress),
            },
        }
    }
}

impl ParsedArgs {
    pub open spec fn view(&self) -> ParsedArgsView {
        match self {
            ParsedArgs::Launcher => ParsedArgsView::Launcher,
            ParsedArgs::Open { file, host_override } => ParsedArgsView::Open {
                file: file@,
                host_override: match host_override {
                    Some(r) => Some(r.view()),
                    None => None,
                },
            },
        }
    }
}

/// The scan state after one more argument `s`: a `--vault=`, `--key=`,
/// `--annotations-file=` or `--progress-file=` option records its value (a repeated option
/// keeps the last one); any other argument starting with `--` is an unknown option; the
/// first other argument is the file; a second one is an error.
pub open spec fn scan_step(st: ArgScan, s: Seq<char>) -> Result<ArgScan, Seq<char>> {
    if is_prefix("--vault="@, s) {
        Ok(ArgScan { vault: Some(s.skip("--vault="@.len() as int)), ..st })
    } else if is_prefix("--key="@, s) {
        Ok(ArgScan { key: Some(s.skip("--key="@.len() as int)), ..st })
    } else if is_prefix("--annotations-file="@, s) {
        Ok(ArgScan { annotations: Some(s.skip("--annotations-file="@.len() as int)), ..st })
    } else if is_prefix("--progress-file="@, s) {
        Ok(ArgScan { progress: Some(s.skip("--progress-file="@.len() as int)), ..st })
    } else if is_prefix("--"@, s) {
        Err("Unknown option: "@ + s)
    } else if st.file is None {
        Ok(ArgScan { file: Some(s), ..st })
    } else {
        Err("Unexpected extra argument: "@ + s)
    }
}

/// The scan state after all of `args`, or the first error met.
pub open spec fn scan_args(args: Seq<Seq<char>>) -> Result<ArgScan, Seq<char>>
    decreases args.len(),
{
    if args.len() == 0 {
        Ok(ArgScan { vault: None, key: None, annotations: None, progress: None, file: None })
    } else {
        match scan_args(args.drop_last()) {
            Ok(st) => scan_step(st, args.last()),
            Err(e) => Err(e),
        }
    }
}

/// What a finished scan means: no file is the launcher (unless some option was given,
/// which needs a file); a file alone opens it locally; `--vault` with `--key` opens it for a
/// vault; `--annotations-file` (with or without `--progress-file`) opens it with explicit
/// paths; any other mix is an error.
pub open spec fn interpret(st: ArgScan) -> Result<ParsedArgsView, Seq<char>> {
    match st.file {
        None => if st.vault is Some || st.key is Some || st.annotations is Some || st.progress is Some {
            Err("A file argument is required alongside --vault/--key/--annotations-file"@)
        } else {
            Ok(ParsedArgsView::Launcher)
        },
        Some(file) => if st.vault is None && st.key is None && st.annotations is None && st.progress is None {
            Ok(ParsedArgsView::Open { file, host_override: None })
        } else if st.vault is Some && st.key is Some && st.annotations is None && st.progress is None {
            Ok(ParsedArgsView::Open {
                file,
                host_override: Some(OverrideRequestView::Vault { root: st.vault->0, key: st.key->0 }),
            })
        } else if st.vault is None && st.key is None && st.annotations is Some {
            Ok(ParsedArgsView::Open {
                file,
                host_override: Some(OverrideRequestView::ExternalPaths {
                    annotations: st.annotations->0,
                    progress: st.progress,
                }),
            })
        } else {
            Err("Pass either --vault with --key, or --annotations-file (optionally with --progress-file), not a mix"@)
        },
    }
}

/// The meaning of a whole command line.
pub open spec fn parse_args_spec(args: Seq<Seq<char>>) -> Result<ParsedArgsView, Seq<char>> {
    match scan_args(args) {
        Ok(st) => interpret(st),
        Err(e) => Err(e),
    }
}

/// The characters of each argument.
pub open spec fn args_view(args: Seq<String>) -> Seq<Seq<char>> {
    Seq::new(args.len(), |i: int| args[i]@)
}

/// Parse the arguments of a command line (without the program name). Only parses: the
/// paths named are not checked.
pub fn parse_args(args: &Vec<String>) -> (r: Result<ParsedArgs, String>)
    ensures
        match r {
            Ok(p) => parse_args_spec(args_view(args@)) == Ok::<ParsedArgsView, Seq<char>>(p.view()),
            Err(e) => parse_args_spec(args_view(args@)) == Err::<ParsedArgsView, Seq<char>>(e@),
        },
{
    let ghost av = args_view(args@);
    let mut vault: Option<String> = None;
    let mut key: Option<String> = None;
    let mut annotations_file: Option<String> = None;
    let mut progress_file: Option<String> = None;
    let mut file: Option<String> = None;
    let mut i: usize = 0;
    proof {
        assert(av.take(0) =~= Seq::<Seq<char>>::empty());
    }
    while i < args.len()
        invariant
            av == args_view(args@),
            i <= args.len(),
            scan_args(av.take(i as int)) == Ok::<ArgScan, Seq<char>>(ArgScan {
                vault: opt_view(vault),
                key: opt_view(key),
                annotations: opt_view(annotations_file),
                progress: opt_view(progress_file),
                file: opt_view(file),
            }),
        decreases args.len() - i,
    {
        let s = args[i].as_str();
        proof {
            assert(av.take(i as int + 1).drop_last() =~= av.take(i as int));
            assert(av.take(i as int + 1).last() == s@);
        }
        if let Some(v) = strip_prefix(s, "--vault=") {
            vault = Some(v);
        } else if let Some(v) = strip_prefix(s, "--key=") {
            key = Some(v);
        } else if let Some(v) = strip_prefix(s, "--annotations-file=") {
            annotations_file = Some(v);
        } else if let Some(v) = strip_prefix(s, "--progress-file=") {
            progress_file = Some(v);
        } else if strip_prefix(s, "--").is_some() {
            let msg = concat_str("Unknown option: ", s);
            proof {
                lemma_scan_error_stays(av, i as int + 1, msg@);
            }
            return Err(msg);
        } else if file.is_none() {
            file = Some(s.to_owned());
        } else {
            let msg = concat_str("Unexpected extra argument: ", s);
            proof {
                lemma_scan_error_stays(av, i as int + 1, msg@);
            }
            return Err(msg);
        }
        i = i + 1;
    }
    proof {
        assert(av.take(i as int) =~= av);
    }
    match file {
        None => {
            if vault.is_some() || key.is_some() || annotations_file.is_some() || progress_file.is_some() {
                Err("A file argument is required alongside --vault/--key/--annotations-file".to_owned())
            } else {
                Ok(ParsedArgs::Launcher)
            }
        },
        Some(file) => {
            match (vault, key, annotations_file, progress_file) {
                (None, None, None, None) => Ok(ParsedArgs::Open { file, host_override: None }),
                (Some(root), Some(key), None, None) => Ok(
                    ParsedArgs::Open { file, host_override: Some(OverrideRequest::Vault { root, key }) },
                ),
                (None, None, Some(annotations), progress) => Ok(
                    ParsedArgs::Open {
                        file,
                        host_override: Some(OverrideRequest::ExternalPaths { annotations, progress }),
                    },
                ),
                _ => Err(
                    "Pass either --vault with --key, or --annotations-file (optionally with --progress-file), not a mix".to_owned(),
                ),
            }
        },
    }
}

/// Once the scan has failed, later arguments don't change the error.
proof fn lemma_scan_error_stays(args: Seq<Seq<char>>, n: int, e: Seq<char>)
    requires
        0 <= n <= args.len(),
        scan_args(args.take(n)) == Err::<ArgScan, Seq<char>>(e),
    ensures
        scan_args(args) == Err::<ArgScan, Seq<char>>(e),
    decreases args.len() - n,
{
    if n < args.len() {
        assert(args.take(n + 1).drop_last() =~= args.take(n));
        lemma_scan_error_stays(args, n + 1, e);
    } else {
        assert(args.take(n) =~= args);
    }
}

/// The content hash in hand, the override the command line asked for.
pub fn resolve_override(request: OverrideRequest, hash: String) -> (h: HostOverride)
    ensures
        h.view() == crate::host::override_view(request.view(), hash@),
        request is Vault ==> (h is Vault && h->Vault_root == request->Vault_root && h->Vault_key
            == request->Vault_key && h->Vault_hash == hash),
        request is ExternalPaths ==> (h is ExternalPaths && h->ExternalPaths_annotations
            == request->ExternalPaths_annotations && h->ExternalPaths_progress == request->ExternalPaths_progress
            && h->ExternalPaths_hash == hash),
{
    match request {
        OverrideRequest::Vault { root, key } => HostOverride::Vault { root, key, hash },
        OverrideRequest::ExternalPaths { annotations, progress } => HostOverride::ExternalPaths {
            annotations,
            progress,
            hash,
        },
    }
}

} // verus!
