//! The image tool (an MCP server) installed for a profile: which build fits the machine,
//! and where its runtime copy lives.
use vstd::prelude::*;

use crate::error::AppError;
use crate::paths::join;
use crate::platform::Os;
use crate::text::{chars_of, concat, lit, str_eq, string_of, upper_vec};

verus! {

broadcast use vstd::string::group_string_axioms;

/// Where the image tool is installed for a profile, for which platform, and whether this
/// run installed a new copy.
#[derive(Debug, Clone)]
pub struct ImageMcpInstallation {
    pub path: String,
    pub platform: String,
    pub architecture: String,
    pub installed: bool,
}

/// The state of the image tool after a refresh.
#[derive(Debug, Clone)]
pub struct ImageMcpRefreshResult {
    pub installation: ImageMcpInstallation,
    pub config_registered: bool,
    pub agents_configured: bool,
    pub eligible: bool,
    pub error: Option<String>,
}

/// The build of the image tool for one platform, and the name it is installed under.
#[derive(Debug, Clone)]
pub struct ResourceTarget {
    pub platform: String,
    pub architecture: String,
    pub resource_name: String,
    pub destination_name: String,
}

pub open spec fn unsupported_message(platform: Seq<char>, architecture: Seq<char>) -> Seq<char> {
    "当前系统或架构暂不支持图片工具："@ + platform + "/"@ + architecture
}

/// The build for a platform: Windows and macOS, each on amd64 and arm64.
pub open spec fn resource_for(platform: Seq<char>, architecture: Seq<char>) -> Option<
    (Seq<char>, Seq<char>),
> {
    if platform == "windows"@ && architecture == "amd64"@ {
        Some(("image-mcp-windows-amd64.exe"@, "image-mcp.exe"@))
    } else if platform == "windows"@ && architecture == "arm64"@ {
        Some(("image-mcp-windows-arm64.exe"@, "image-mcp.exe"@))
    } else if platform == "macos"@ && architecture == "amd64"@ {
        Some(("image-mcp-darwin-amd64"@, "image-mcp"@))
    } else if platform == "macos"@ && architecture == "arm64"@ {
        Some(("image-mcp-darwin-arm64"@, "image-mcp"@))
    } else {
        None
    }
}

pub fn resource_target(platform: &str, architecture: &str) -> (r: Result<ResourceTarget, AppError>)
    ensures
        match r {
            Ok(t) => resource_for(platform@, architecture@) matches Some(n) && t.platform@
                == platform@ && t.architecture@ == architecture@ && t.resource_name@ == n.0
                && t.destination_name@ == n.1,
            Err(e) => resource_for(platform@, architecture@) is None && e is Message && e.text()
                == unsupported_message(platform@, architecture@),
        },
{
    let windows = str_eq(platform, "windows");
    let macos = str_eq(platform, "macos");
    let amd64 = str_eq(architecture, "amd64");
    let arm64 = str_eq(architecture, "arm64");
    let names: Option<(&str, &str)> = if windows && amd64 {
        Some(("image-mcp-windows-amd64.exe", "image-mcp.exe"))
    } else if windows && arm64 {
        Some(("image-mcp-windows-arm64.exe", "image-mcp.exe"))
    } else if macos && amd64 {
        Some(("image-mcp-darwin-amd64", "image-mcp"))
    } else if macos && arm64 {
        Some(("image-mcp-darwin-arm64", "image-mcp"))
    } else {
        None
    };
    match names {
        Some((resource_name, destination_name)) => Ok(
            ResourceTarget {
                platform: platform.to_string(),
                architecture: architecture.to_string(),
                resource_name: resource_name.to_string(),
                destination_name: destination_name.to_string(),
            },
        ),
        None => {
            let a = concat(&lit("当前系统或架构暂不支持图片工具："), &chars_of(platform));
            let b = concat(&concat(&a, &lit("/")), &chars_of(architecture));
            Err(AppError::Message(string_of(&b)))
        },
    }
}

pub open spec fn upper_char(c: char) -> char {
    if 'a' <= c && c <= 'z' {
        ((c as u32) - 32) as char
    } else {
        c
    }
}

/// The architecture of the image tool for the machine's own: `arm64`, `amd64`, or
/// `unsupported`. On Windows `native` is the processor architecture the system reports
/// (any ASCII case); elsewhere it is Rust's name for the target architecture.
pub open spec fn tool_architecture(native: Seq<char>, os: Os) -> Seq<char> {
    if os == Os::Windows {
        let u = native.map_values(|c: char| upper_char(c));
        if u == "ARM64"@ || u == "AARCH64"@ {
            "arm64"@
        } else if u == "AMD64"@ || u == "X86_64"@ {
            "amd64"@
        } else {
            "unsupported"@
        }
    } else if native == "x86_64"@ {
        "amd64"@
    } else if native == "aarch64"@ {
        "arm64"@
    } else {
        "unsupported"@
    }
}

pub fn architecture_for(native: &str, os: Os) -> (r: String)
    ensures
        r@ == tool_architecture(native@, os),
{
    match os {
        Os::Windows => {
            let u = upper_vec(&chars_of(native));
            if crate::text::seq_eq(&u, &lit("ARM64")) || crate::text::seq_eq(&u, &lit("AARCH64")) {
                "arm64".to_string()
            } else if crate::text::seq_eq(&u, &lit("AMD64")) || crate::text::seq_eq(&u, &lit("X86_64")) {
                "amd64".to_string()
            } else {
                "unsupported".to_string()
            }
        },
        _ => {
            if str_eq(native, "x86_64") {
                "amd64".to_string()
            } else if str_eq(native, "aarch64") {
                "arm64".to_string()
            } else {
                "unsupported".to_string()
            }
        },
    }
}

pub open spec fn runtime_id_char(c: char) -> bool {
    crate::provider::ascii_alnum(c) || c == '-' || c == '_'
}

pub open spec fn invalid_id_message() -> Seq<char> {
    "无效的配置目录标识"@
}

/// The directory of a profile's copy of the image tool: `mcp/<profile id>` under the data
/// directory. The id must be non-empty ASCII letters, digits, hyphens and underscores, so
/// that it cannot leave that directory.
pub fn runtime_directory(data_dir: &str, profile_id: &str, os: Os) -> (r: Result<String, AppError>)
    ensures
        match r {
            Ok(p) => profile_id@.len() > 0 && (forall|i: int|
                0 <= i < profile_id@.len() ==> runtime_id_char(#[trigger] profile_id@[i])) && p@
                == join(os, join(os, data_dir@, "mcp"@), profile_id@),
            Err(e) => !(profile_id@.len() > 0 && (forall|i: int|
                0 <= i < profile_id@.len() ==> runtime_id_char(#[trigger] profile_id@[i]))) && e is Message
                && e.text() == invalid_id_message(),
        },
{
    let id = chars_of(profile_id);
    let mut ok = id.len() > 0;
    let mut i: usize = 0;
    while ok && i < id.len()
        invariant
            i <= id@.len(),
            ok ==> id@.len() > 0,
            ok ==> forall|j: int| 0 <= j < i ==> runtime_id_char(#[trigger] id@[j]),
            !ok ==> !(id@.len() > 0 && (forall|j: int| 0 <= j < id@.len() ==> runtime_id_char(#[trigger] id@[j]))),
        decreases id@.len() - i,
    {
        let c = id[i];
        if !(('a' <= c && c <= 'z') || ('A' <= c && c <= 'Z') || ('0' <= c && c <= '9') || c == '-' || c == '_') {
            ok = false;
        }
        i = i + 1;
    }
    if !ok {
        return Err(AppError::Message("无效的配置目录标识".to_string()));
    }
    let base = crate::paths::path_join(os, &chars_of(data_dir), &lit("mcp"));
    Ok(string_of(&crate::paths::path_join(os, &base, &id)))
}

/// Whether the tool must be (re)written: it is absent, or its bytes differ from the build.
pub fn needs_install(existing: Option<&Vec<u8>>, contents: &Vec<u8>) -> (r: bool)
    ensures
        r == match existing {
            Some(e) => e@ != contents@,
            None => true,
        },
{
    match existing {
        None => true,
        Some(e) => {
            if e.len() != contents.len() {
                return true;
            }
            let mut i: usize = 0;
            while i < e.len()
                invariant
                    existing == Some(e),
                    i <= e@.len(),
                    e@.len() == contents@.len(),
                    forall|j: int| 0 <= j < i ==> e@[j] == contents@[j],
                decreases e@.len() - i,
            {
                if e[i] != contents[i] {
                    assert(e@ != contents@) by {
                        if e@ == contents@ {
                            assert(e@[i as int] == contents@[i as int]);
                        }
                    }
                    return true;
                }
                i = i + 1;
            }
            assert(e@ =~= contents@);
            false
        },
    }
}

} // verus!
