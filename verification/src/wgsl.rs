//! WGSL validation through naga, and the pre-built chromatic templates.

use vstd::prelude::*;

verus! {

use crate::Error;

/// What naga's parser and validator together say about a source text:
/// nothing when it is valid, and the diagnostic message when it is not.
/// The verdict is a function of the source text alone.
pub uninterp spec fn wgsl_verdict(code: Seq<char>) -> Option<Seq<char>>;

/// Relies on naga::front::wgsl::parse_str and on
/// naga::valid::Validator::validate, run with all validation flags and
/// all capabilities: acceptance and the diagnostic depend on the source
/// text alone.
#[verifier::external_body]
fn naga_validate(code: &str) -> (r: Result<(), String>)
    ensures
        match r {
            Ok(()) => wgsl_verdict(code@) is None,
            Err(m) => wgsl_verdict(code@) == Some(m@),
        },
{
    match naga::front::wgsl::parse_str(code) {
        Ok(module) => {
            let mut validator = naga::valid::Validator::new(
                naga::valid::ValidationFlags::all(),
                naga::valid::Capabilities::all(),
            );
            match validator.validate(&module) {
                Ok(_) => Ok(()),
                Err(e) => Err(format!("Validation error: {:?}", e)),
            }
        },
        Err(e) => Err(format!("Parse error: {}", e)),
    }
}

/// The outcome of validating one source text.
#[derive(Debug, Clone)]
pub struct ValidationResult {
    pub is_valid: bool,
    pub errors: Vec<String>,
    pub warnings: Vec<String>,
}

/// WGSL validator backed by naga.
pub struct WGSLValidator {
    /// Whether warnings are reported alongside errors.
    pub show_warnings: bool,
}

impl WGSLValidator {
    /// A validator that reports warnings.
    pub fn new() -> (r: Self)
        ensures
            r.show_warnings,
    {
        WGSLValidator { show_warnings: true }
    }

    /// Validates a source text: valid exactly when naga accepts it, with
    /// the single diagnostic message otherwise. Warnings are never
    /// produced by this validation path.
    pub fn validate(&self, code: &str) -> (r: Result<ValidationResult, Error>)
        ensures
            r is Ok,
            ({
                let v = r->Ok_0;
                &&& v.is_valid == (wgsl_verdict(code@) is None)
                &&& (wgsl_verdict(code@) is None ==> v.errors@.len() == 0)
                &&& (wgsl_verdict(code@) is Some ==> v.errors@.len() == 1 && v.errors@[0]@
                    == wgsl_verdict(code@)->Some_0)
                &&& v.warnings@.len() == 0
            }),
    {
        match naga_validate(code) {
            Ok(()) => Ok(
                ValidationResult { is_valid: true, errors: Vec::new(), warnings: Vec::new() },
            ),
            Err(m) => {
                let mut errors: Vec<String> = Vec::new();
                errors.push(m);
                Ok(ValidationResult { is_valid: false, errors, warnings: Vec::new() })
            },
        }
    }
}

impl Default for WGSLValidator {
    /// A validator that reports warnings.
    fn default() -> (r: Self)
        ensures
            r.show_warnings,
    {
        WGSLValidator::new()
    }
}

/// The chromatic mix template: additive blending of two tensors.
pub open spec fn mix_template() -> Seq<char> {
    r#"// Chromatic mix operation - additive coherence
@group(0) @binding(0) var<storage, read> tensor_a: array<vec4<f32>>;
@group(0) @binding(1) var<storage, read> tensor_b: array<vec4<f32>>;
@group(0) @binding(2) var<storage, read_write> output: array<vec4<f32>>;

@compute @workgroup_size(8, 8, 1)
fn chromatic_mix(@builtin(global_invocation_id) id: vec3<u32>) {
    let idx = id.x + id.y * 8u;
    let a = tensor_a[idx];
    let b = tensor_b[idx];

    // Additive blend and normalize
    let mixed = normalize(a.rgb + b.rgb);
    let certainty = (a.w + b.w) * 0.5;

    output[idx] = vec4<f32>(mixed, certainty);
}
"#@
}

/// The chromatic filter template: subtractive blending of two tensors.
pub open spec fn filter_template() -> Seq<char> {
    r#"// Chromatic filter operation - subtractive distinction
@group(0) @binding(0) var<storage, read> tensor_a: array<vec4<f32>>;
@group(0) @binding(1) var<storage, read> tensor_b: array<vec4<f32>>;
@group(0) @binding(2) var<storage, read_write> output: array<vec4<f32>>;

@compute @workgroup_size(8, 8, 1)
fn chromatic_filter(@builtin(global_invocation_id) id: vec3<u32>) {
    let idx = id.x + id.y * 8u;
    let a = tensor_a[idx];
    let b = tensor_b[idx];

    // Subtractive blend, clamped to [0, 1]
    let filtered = clamp(a.rgb - b.rgb, vec3<f32>(0.0), vec3<f32>(1.0));

    output[idx] = vec4<f32>(filtered, a.w);
}
"#@
}

/// The chromatic complement template: hue rotation by inversion.
pub open spec fn complement_template() -> Seq<char> {
    r#"// Chromatic complement operation - opposite hue
@group(0) @binding(0) var<storage, read> tensor: array<vec4<f32>>;
@group(0) @binding(1) var<storage, read_write> output: array<vec4<f32>>;

@compute @workgroup_size(8, 8, 1)
fn chromatic_complement(@builtin(global_invocation_id) id: vec3<u32>) {
    let idx = id.x + id.y * 8u;
    let color = tensor[idx];

    // Invert green and blue channels (hue rotation)
    let complement = vec3<f32>(color.r, 1.0 - color.g, 1.0 - color.b);

    output[idx] = vec4<f32>(complement, color.w);
}
"#@
}

/// The chromatic saturate template: scaling distance from the mean.
pub open spec fn saturate_template() -> Seq<char> {
    r#"// Chromatic saturate operation - adjust saturation
@group(0) @binding(0) var<storage, read> tensor: array<vec4<f32>>;
@group(0) @binding(1) var<storage, read_write> output: array<vec4<f32>>;
@group(0) @binding(2) var<uniform> alpha: f32;

@compute @workgroup_size(8, 8, 1)
fn chromatic_saturate(@builtin(global_invocation_id) id: vec3<u32>) {
    let idx = id.x + id.y * 8u;
    let color = tensor[idx];

    // Calculate mean and scale distance from mean
    let mean = (color.r + color.g + color.b) / 3.0;
    let saturated = mean + alpha * (color.rgb - vec3<f32>(mean));

    output[idx] = vec4<f32>(clamp(saturated, vec3<f32>(0.0), vec3<f32>(1.0)), color.w);
}
"#@
}

/// Pre-built WGSL templates for chromatic tensor operations.
pub struct ChromaticTemplate;

impl ChromaticTemplate {
    /// The chromatic mix shader.
    pub fn mix() -> (r: String)
        ensures
            r@ == mix_template(),
    {
        r#"// Chromatic mix operation - additive coherence
@group(0) @binding(0) var<storage, read> tensor_a: array<vec4<f32>>;
@group(0) @binding(1) var<storage, read> tensor_b: array<vec4<f32>>;
@group(0) @binding(2) var<storage, read_write> output: array<vec4<f32>>;

@compute @workgroup_size(8, 8, 1)
fn chromatic_mix(@builtin(global_invocation_id) id: vec3<u32>) {
    let idx = id.x + id.y * 8u;
    let a = tensor_a[idx];
    let b = tensor_b[idx];

    // Additive blend and normalize
    let mixed = normalize(a.rgb + b.rgb);
    let certainty = (a.w + b.w) * 0.5;

    output[idx] = vec4<f32>(mixed, certainty);
}
"#.to_string()
    }

    /// The chromatic filter shader.
    pub fn filter() -> (r: String)
        ensures
            r@ == filter_template(),
    {
        r#"// Chromatic filter operation - subtractive distinction
@group(0) @binding(0) var<storage, read> tensor_a: array<vec4<f32>>;
@group(0) @binding(1) var<storage, read> tensor_b: array<vec4<f32>>;
@group(0) @binding(2) var<storage, read_write> output: array<vec4<f32>>;

@compute @workgroup_size(8, 8, 1)
fn chromatic_filter(@builtin(global_invocation_id) id: vec3<u32>) {
    let idx = id.x + id.y * 8u;
    let a = tensor_a[idx];
    let b = tensor_b[idx];

    // Subtractive blend, clamped to [0, 1]
    let filtered = clamp(a.rgb - b.rgb, vec3<f32>(0.0), vec3<f32>(1.0));

    output[idx] = vec4<f32>(filtered, a.w);
}
"#.to_string()
    }

    /// The chromatic complement shader.
    pub fn complement() -> (r: String)
        ensures
            r@ == complement_template(),
    {
        r#"// Chromatic complement operation - opposite hue
@group(0) @binding(0) var<storage, read> tensor: array<vec4<f32>>;
@group(0) @binding(1) var<storage, read_write> output: array<vec4<f32>>;

@compute @workgroup_size(8, 8, 1)
fn chromatic_complement(@builtin(global_invocation_id) id: vec3<u32>) {
    let idx = id.x + id.y * 8u;
    let color = tensor[idx];

    // Invert green and blue channels (hue rotation)
    let complement = vec3<f32>(color.r, 1.0 - color.g, 1.0 - color.b);

    output[idx] = vec4<f32>(complement, color.w);
}
"#.to_string()
    }

    /// The chromatic saturate shader.
    pub fn saturate() -> (r: String)
        ensures
            r@ == saturate_template(),
    {
        r#"// Chromatic saturate operation - adjust saturation
@group(0) @binding(0) var<storage, read> tensor: array<vec4<f32>>;
@group(0) @binding(1) var<storage, read_write> output: array<vec4<f32>>;
@group(0) @binding(2) var<uniform> alpha: f32;

@compute @workgroup_size(8, 8, 1)
fn chromatic_saturate(@builtin(global_invocation_id) id: vec3<u32>) {
    let idx = id.x + id.y * 8u;
    let color = tensor[idx];

    // Calculate mean and scale distance from mean
    let mean = (color.r + color.g + color.b) / 3.0;
    let saturated = mean + alpha * (color.rgb - vec3<f32>(mean));

    output[idx] = vec4<f32>(clamp(saturated, vec3<f32>(0.0), vec3<f32>(1.0)), color.w);
}
"#.to_string()
    }
}

} // verus!
