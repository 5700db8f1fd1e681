//! The editor-extension side: which server binary a host platform runs, and
//! where it is looked for.

use crate::text::same_text;
use vstd::prelude::*;
use vstd::string::StringExecFns;

verus! {

/// The editor extension that launches the language server.
pub struct HttpClient;

impl HttpClient {
    pub fn new() -> (r: HttpClient) {
        HttpClient
    }
}

/// Operating systems a server binary is built for.
#[derive(Debug, Clone, Copy, PartialEq, Eq, Structural)]
pub enum HostOs {
    Mac,
    Linux,
    Windows,
}

/// Processor architectures a server binary is built for.
#[derive(Debug, Clone, Copy, PartialEq, Eq, Structural)]
pub enum HostArch {
    Aarch64,
    X8664,
    X86,
}

pub open spec fn os_label(os: HostOs) -> Seq<char> {
    match os {
        HostOs::Mac => "macos"@,
        HostOs::Linux => "linux"@,
        HostOs::Windows => "windows"@,
    }
}

pub open spec fn arch_label(arch: HostArch) -> Seq<char> {
    match arch {
        HostArch::Aarch64 => "aarch64"@,
        HostArch::X8664 => "x86_64"@,
        HostArch::X86 => "x86"@,
    }
}

/// `http-lsp-<os>-<arch>`, with `.exe` on Windows.
pub open spec fn binary_name_spec(os: HostOs, arch: HostArch) -> Seq<char> {
    "http-lsp-"@ + os_label(os) + "-"@ + arch_label(arch) + if os == HostOs::Windows {
        ".exe"@
    } else {
        ""@
    }
}

/// The file name of the server binary for a platform.
pub fn get_binary_name_for_platform(os: HostOs, arch: HostArch) -> (r: String)
    ensures
        r@ == binary_name_spec(os, arch),
{
    let os_text = match os {
        HostOs::Mac => "macos",
        HostOs::Linux => "linux",
        HostOs::Windows => "windows",
    };
    let arch_text = match arch {
        HostArch::Aarch64 => "aarch64",
        HostArch::X8664 => "x86_64",
        HostArch::X86 => "x86",
    };
    let suffix = if os == HostOs::Windows {
        ".exe"
    } else {
        ""
    };
    String::from_str("http-lsp-").concat(os_text).concat("-").concat(arch_text).concat(suffix)
}

/// Where a development build of the server sits inside a worktree.
pub fn dev_binary_path(worktree_root: &str) -> (r: String)
    ensures
        r@ == worktree_root@ + "/bin/http-lsp"@,
{
    String::from_str(worktree_root).concat("/bin/http-lsp")
}

/// Where a downloaded server binary is kept.
pub fn cached_binary_path(binary_name: &str) -> (r: String)
    ensures
        r@ == "bin/"@ + binary_name@,
{
    String::from_str("bin/").concat(binary_name)
}

/// Index of the first release asset named `binary_name`.
pub fn find_asset(asset_names: &Vec<String>, binary_name: &str) -> (r: Option<usize>)
    ensures
        match r {
            Some(i) => i < asset_names@.len() && asset_names@[i as int]@ == binary_name@ && forall|
                j: int,
            | 0 <= j < i ==> #[trigger] asset_names@[j]@ != binary_name@,
            None => forall|j: int|
                0 <= j < asset_names@.len() ==> #[trigger] asset_names@[j]@ != binary_name@,
        },
{
    let mut i: usize = 0;
    while i < asset_names.len()
        invariant
            i <= asset_names.len(),
            forall|j: int| 0 <= j < i ==> #[trigger] asset_names@[j]@ != binary_name@,
        decreases asset_names.len() - i,
    {
        if same_text(&asset_names[i], binary_name) {
            return Some(i);
        }
        i = i + 1;
    }
    None
}

/// The error when a release has no binary for the platform.
pub fn missing_asset_message(binary_name: &str) -> (r: String)
    ensures
        r@ == "No binary found for platform: "@ + binary_name@,
{
    String::from_str("No binary found for platform: ").concat(binary_name)
}

/// A downloaded binary must be made executable everywhere but on Windows.
pub fn needs_executable_bit(os: HostOs) -> (r: bool)
    ensures
        r == (os != HostOs::Windows),
{
    os != HostOs::Windows
}

} // verus!
