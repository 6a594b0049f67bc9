//! Backend container parameters: the GPU selector, the launch
//! configuration, image names, the command line handed to the inference
//! server, and its internal URL.

use vstd::prelude::*;
use vstd::string::StringSliceAdditionalSpecFns;

verus! {

/// GPU type for inference containers.
#[derive(Debug, Clone, Copy, PartialEq, Eq, Structural)]
pub enum GpuType {
    Cpu,
    Vulkan,
}

/// A byte lowered to ASCII lowercase.
pub open spec fn lower_byte(b: u8) -> u8 {
    if 65 <= b && b <= 90 {
        (b + 32) as u8
    } else {
        b
    }
}

pub open spec fn spec_lower_bytes(s: Seq<u8>) -> Seq<u8> {
    s.map_values(|b: u8| lower_byte(b))
}

impl GpuType {
    /// Reads a GPU selector: `vulkan` in any ASCII case; anything else
    /// means no GPU.
    pub fn from_str(s: &str) -> (r: GpuType)
        ensures
            r == (if spec_lower_bytes(s.spec_bytes()) == "vulkan".spec_bytes() {
                GpuType::Vulkan
            } else {
                GpuType::Cpu
            }),
    {
        let b = s.as_bytes();
        let want: [u8; 6] = [118, 117, 108, 107, 97, 110];  // vulkan
        proof {
            reveal_strlit("vulkan");
            assert("vulkan"@.len() == 6);
            assert("vulkan"@[0] == 'v' && "vulkan"@[1] == 'u' && "vulkan"@[2] == 'l' && "vulkan"@[3]
                == 'k' && "vulkan"@[4] == 'a' && "vulkan"@[5] == 'n');
            vstd::utf8::is_ascii_chars_encode_utf8("vulkan"@);
            assert("vulkan".spec_bytes() =~= want@);
        }
        if b.len() != 6 {
            proof {
                assert(spec_lower_bytes(s.spec_bytes()).len() == s.spec_bytes().len());
            }
            return GpuType::Cpu;
        }
        let mut i: usize = 0;
        while i < 6
            invariant
                0 <= i <= 6,
                b@.len() == 6,
                b@ == s.spec_bytes(),
                want@ == "vulkan".spec_bytes(),
                forall|j: int| 0 <= j < i ==> lower_byte(#[trigger] b@[j]) == want@[j],
            decreases 6 - i,
        {
            let c = b[i];
            let lowered: u8 = if 65 <= c && c <= 90 {
                c + 32
            } else {
                c
            };
            if lowered != want[i] {
                proof {
                    assert(spec_lower_bytes(s.spec_bytes())[i as int] == lower_byte(b@[i as int]));
                }
                return GpuType::Cpu;
            }
            i += 1;
        }
        proof {
            assert(spec_lower_bytes(s.spec_bytes()) =~= "vulkan".spec_bytes());
        }
        GpuType::Vulkan
    }

}

impl Default for GpuType {
    /// The default selector is no GPU.
    fn default() -> (r: GpuType)
        ensures
            r == GpuType::Cpu,
    {
        GpuType::Cpu
    }
}

/// Configuration for launching an inference container.
#[derive(Debug, Clone)]
pub struct LlamacppConfig {
    pub model_id: String,
    /// Path to the weights file relative to the model directory.
    pub gguf_path: String,
    pub gpu_type: GpuType,
    /// Number of layers to offload to the GPU.
    pub gpu_layers: u32,
    /// Context size in tokens.
    pub context_size: u32,
    /// Number of parallel sequences (concurrency slots).
    pub parallel: u32,
    pub extra_args: Vec<String>,
    /// Container UID.
    pub uid: u32,
    /// API key passed to the inference server.
    pub api_key: String,
}

impl Default for LlamacppConfig {
    fn default() -> (r: LlamacppConfig)
        ensures
            r.model_id@.len() == 0,
            r.gguf_path@.len() == 0,
            r.gpu_type == GpuType::Cpu,
            r.gpu_layers == 99,
            r.context_size == 4096,
            r.parallel == 1,
            r.extra_args@.len() == 0,
            r.uid == 10000,
            r.api_key@.len() == 0,
    {
        LlamacppConfig {
            model_id: String::new(),
            gguf_path: String::new(),
            gpu_type: GpuType::Cpu,
            gpu_layers: 99,
            context_size: 4096,
            parallel: 1,
            extra_args: Vec::new(),
            uid: 10000,
            api_key: String::new(),
        }
    }
}

/// The CPU-only inference server image.
pub fn llamacpp_image_cpu() -> (r: &'static str)
    ensures
        r@ == "ghcr.io/ggml-org/llama.cpp:server"@,
{
    "ghcr.io/ggml-org/llama.cpp:server"
}

/// The Vulkan inference server image.
pub fn llamacpp_image_vulkan() -> (r: &'static str)
    ensures
        r@ == "ghcr.io/ggml-org/llama.cpp:server-vulkan"@,
{
    "ghcr.io/ggml-org/llama.cpp:server-vulkan"
}

/// The image a configuration selects.
pub fn image_for(gpu_type: GpuType) -> (r: &'static str)
    ensures
        gpu_type == GpuType::Vulkan ==> r@ == "ghcr.io/ggml-org/llama.cpp:server-vulkan"@,
        gpu_type == GpuType::Cpu ==> r@ == "ghcr.io/ggml-org/llama.cpp:server"@,
{
    match gpu_type {
        GpuType::Vulkan => llamacpp_image_vulkan(),
        GpuType::Cpu => llamacpp_image_cpu(),
    }
}

/// The container name of a model's backend.
pub fn llamacpp_container_name(model_id: &str) -> (r: String)
    ensures
        r@ == "sovereign-llamacpp-"@ + model_id@,
{
    let mut s = String::from_str("sovereign-llamacpp-");
    s.append(model_id);
    s
}

/// The internal URL of a model's backend on the isolated network.
pub fn llamacpp_base_url(model_id: &str) -> (r: String)
    ensures
        r@ == "http://sovereign-llamacpp-"@ + model_id@ + ":8080"@,
{
    let mut s = String::from_str("http://sovereign-llamacpp-");
    s.append(model_id);
    s.append(":8080");
    s
}

/// The argument list handed to the inference server: model path, bind
/// address and port, GPU layers, context size, parallel slots when above
/// one, the API key, and any extra arguments.
pub fn build_llamacpp_cmd(config: &LlamacppConfig) -> (r: Vec<String>)
    ensures
        r@.len() == (if config.parallel > 1 {
            12int
        } else {
            10int
        }) + config.extra_args@.len(),
        r@[0]@ == "--model"@,
        r@[1]@ == "/models/"@ + config.gguf_path@,
        r@[2]@ == "--host"@,
        r@[3]@ == "0.0.0.0"@,
        r@[4]@ == "--port"@,
        r@[5]@ == "8080"@,
        r@[6]@ == "-ngl"@,
        r@[7]@ == crate::numfmt::spec_dec(config.gpu_layers as nat),
        r@[8]@ == "-c"@,
        r@[9]@ == crate::numfmt::spec_dec(config.context_size as nat),
        config.parallel > 1 ==> r@[10]@ == "-np"@ && r@[11]@ == crate::numfmt::spec_dec(
            config.parallel as nat,
        ),
        ({
            let base: int = if config.parallel > 1 {
                12
            } else {
                10
            };
            forall|i: int|
                0 <= i < config.extra_args@.len() ==> (#[trigger] r@[base + i])@
                    == config.extra_args@[i]@
        }),
{
    let mut cmd: Vec<String> = Vec::new();
    cmd.push(String::from_str("--model"));
    let mut model_arg = String::from_str("/models/");
    model_arg.append(config.gguf_path.as_str());
    cmd.push(model_arg);
    cmd.push(String::from_str("--host"));
    cmd.push(String::from_str("0.0.0.0"));
    cmd.push(String::from_str("--port"));
    cmd.push(String::from_str("8080"));
    cmd.push(String::from_str("-ngl"));
    cmd.push(crate::numfmt::u64_to_string(config.gpu_layers as u64));
    cmd.push(String::from_str("-c"));
    cmd.push(crate::numfmt::u64_to_string(config.context_size as u64));
    if config.parallel > 1 {
        cmd.push(String::from_str("-np"));
        cmd.push(crate::numfmt::u64_to_string(config.parallel as u64));
    }
    let ghost base_cmd = cmd@;
    proof {
        assert(base_cmd[0]@ == "--model"@);
        assert(base_cmd[1]@ == "/models/"@ + config.gguf_path@);
        assert(base_cmd[2]@ == "--host"@);
        assert(base_cmd[3]@ == "0.0.0.0"@);
        assert(base_cmd[4]@ == "--port"@);
        assert(base_cmd[5]@ == "8080"@);
        assert(base_cmd[6]@ == "-ngl"@);
        assert(base_cmd[7]@ == crate::numfmt::spec_dec(config.gpu_layers as nat));
        assert(base_cmd[8]@ == "-c"@);
        assert(base_cmd[9]@ == crate::numfmt::spec_dec(config.context_size as nat));
        if config.parallel > 1 {
            assert(base_cmd[10]@ == "-np"@);
            assert(base_cmd[11]@ == crate::numfmt::spec_dec(config.parallel as nat));
        }
    }
    let mut i: usize = 0;
    while i < config.extra_args.len()
        invariant
            0 <= i <= config.extra_args@.len(),
            cmd@.len() == base_cmd.len() + i,
            forall|j: int| 0 <= j < base_cmd.len() ==> cmd@[j] == #[trigger] base_cmd[j],
            forall|j: int|
                0 <= j < i ==> (#[trigger] cmd@[base_cmd.len() + j])@ == config.extra_args@[j]@,
        decreases config.extra_args@.len() - i,
    {
        cmd.push(config.extra_args[i].clone());
        i += 1;
    }
    cmd
}

/// Parameters accepted by the container-start endpoints.
#[derive(Debug, Clone)]
pub struct StartContainerParams {
    pub model_id: String,
    pub backend_type: Option<String>,
    pub gpu_type: Option<String>,
    pub gpu_layers: Option<u32>,
    pub context_size: Option<u32>,
    pub parallel: Option<u32>,
}

/// The model row the start-container flow reads.
#[derive(Debug, Clone)]
pub struct ModelStartRow {
    pub id: String,
    pub hf_repo: String,
    pub filename: Option<String>,
    pub backend_type: String,
    pub context_length: Option<i64>,
}

} // verus!
