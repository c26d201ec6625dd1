//! The generic WASM AudioWorklet shim.
//!
//! One processor (`awsm-wasm`) is registered per context. It is fed a compiled
//! `WebAssembly.Module` (via `processorOptions.module`) that implements the
//! awsm-audio worklet ABI, instantiates it on the audio thread, and drives it
//! one render quantum at a time: copy the input and the current parameter
//! values into the module's linear memory, call its `process(frames)`, copy the
//! output back out.
//!
//! ## Module ABI (all exports optional unless noted)
//! - `memory: WebAssembly.Memory`: **required**, the module's linear memory.
//! - `init(sample_rate: f32, max_frames: u32)`: called once after instantiate.
//! - `input_ptr() -> u32` / `output_ptr() -> u32`: base of planar-f32
//!   scratch regions, each `max_frames` long per channel.
//! - `params_ptr() -> u32`: base of an f32 array, one slot per discovered param.
//! - `process(frames: u32)`: **required**, reads input+params, writes output.
//! - Discovery: `param_count() -> u32`, `param_name_ptr(i)/param_name_len(i)`,
//!   `param_min(i)/param_max(i)/param_default(i) -> f32`.
//!
//! The number of generic `AudioParam`s the shim declares is [`PARAM_BANK`]; a
//! module may expose up to that many discovered params.

use vstd::prelude::*;

use crate::text::{
    contains_seq, decimal, digit_char, lemma_replaced_keeps_text,
    lemma_replaced_leaves_no_pattern, replace_all, replaced, usize_to_decimal,
};

verus! {

/// How many generic `AudioParam`s the shim's processor always declares. A
/// loaded module's discovered params are mapped onto `p0..p{N-1}` so they
/// become real, automatable, modulation-targetable AudioParams.
pub const PARAM_BANK: usize = 32;

/// The shim source, registered once per context via `audioWorklet.addModule`.
/// `__BANK__` is substituted with [`PARAM_BANK`] at runtime.
pub const SHIM_TEMPLATE: &'static str = r#"
const BANK = __BANK__;
class AwsmWasm extends AudioWorkletProcessor {
  static get parameterDescriptors() {
    const d = [];
    for (let i = 0; i < BANK; i++) {
      d.push({ name: 'p' + i, defaultValue: 0,
               minValue: -3.4e38, maxValue: 3.4e38, automationRate: 'k-rate' });
    }
    return d;
  }
  constructor(opts) {
    super();
    const po = (opts && opts.processorOptions) || {};
    this.ok = false;
    try {
      this.inst = new WebAssembly.Instance(po.module, {});
      const ex = this.inst.exports;
      this.ex = ex;
      this.mem = ex.memory;
      this.maxFrames = 128;
      if (ex.init) ex.init(sampleRate, this.maxFrames);
      this.paramCount = ex.param_count ? (ex.param_count() | 0) : 0;
      this.inPtr  = ex.input_ptr  ? (ex.input_ptr()  | 0) : 0;
      this.outPtr = ex.output_ptr ? (ex.output_ptr() | 0) : 0;
      this.parPtr = ex.params_ptr ? (ex.params_ptr() | 0) : 0;
      this.chans  = ex.channels ? Math.max(1, ex.channels() | 0) : 1;
      this.run = ex.process || null;
      this.ok = !!(this.mem && this.run);
    } catch (e) {
      // Leave ok=false → passes audio through untouched.
      this.err = String(e);
    }
  }
  process(inputs, outputs, parameters) {
    const out = outputs[0];
    if (!out || !out[0]) return true;
    const frames = out[0].length;
    const inp = inputs[0];
    if (!this.ok) {
      // Pass-through: copy input to output if present, else silence.
      for (let c = 0; c < out.length; c++) {
        if (inp && inp[c]) out[c].set(inp[c]); else out[c].fill(0);
      }
      return true;
    }
    const buf = this.mem.buffer;
    // Parameters → wasm memory (k-rate: one value per quantum).
    if (this.parPtr && this.paramCount) {
      const pv = new Float32Array(buf, this.parPtr, this.paramCount);
      for (let i = 0; i < this.paramCount; i++) {
        const a = parameters['p' + i];
        pv[i] = a ? a[0] : 0;
      }
    }
    const CH = this.chans, MF = this.maxFrames;
    // Inputs → wasm planar regions (channel c at byte offset ptr + c*MF*4).
    // A mono input is duplicated to every channel.
    if (this.inPtr) {
      for (let c = 0; c < CH; c++) {
        const region = new Float32Array(buf, this.inPtr + c * MF * 4, frames);
        const src = inp && inp.length ? inp[Math.min(c, inp.length - 1)] : null;
        if (src) region.set(src.subarray(0, frames)); else region.fill(0);
      }
    }
    this.run(frames);
    // Outputs ← wasm planar regions (clamp channel index to what the module has).
    if (this.outPtr) {
      for (let c = 0; c < out.length; c++) {
        const region = new Float32Array(buf, this.outPtr + Math.min(c, CH - 1) * MF * 4, frames);
        out[c].set(region.subarray(0, frames));
      }
    }
    return true;
  }
}
registerProcessor('awsm-wasm', AwsmWasm);
"#;

/// The registered processor name the player instantiates.
pub const PROCESSOR_NAME: &'static str = "awsm-wasm";

/// The placeholder in [`SHIM_TEMPLATE`] that stands for the bank size.
pub const BANK_PLACEHOLDER: &'static str = "__BANK__";

/// The shim text: [`SHIM_TEMPLATE`] with every [`BANK_PLACEHOLDER`] replaced
/// by the decimal rendering of [`PARAM_BANK`].
pub open spec fn spec_shim_source() -> Seq<char> {
    replaced(SHIM_TEMPLATE@, BANK_PLACEHOLDER@, decimal(PARAM_BANK as nat))
}

/// The shim source with the param-bank size substituted in.
pub fn shim_source() -> (r: String)
    ensures
        r@ == spec_shim_source(),
{
    let bank = usize_to_decimal(PARAM_BANK);
    proof {
        reveal_strlit("__BANK__");
    }
    replace_all(SHIM_TEMPLATE, BANK_PLACEHOLDER, bank.as_str())
}

/// The shim registers its processor under exactly [`PROCESSOR_NAME`], the
/// name the player instantiates, and no bank placeholder is left in it.
pub proof fn lemma_shim_registers_processor()
    ensures
        contains_seq(spec_shim_source(), "registerProcessor('"@ + PROCESSOR_NAME@ + "'"@),
        !contains_seq(spec_shim_source(), BANK_PLACEHOLDER@),
{
    reveal_strlit("__BANK__");
    reveal_strlit("awsm-wasm");
    reveal_strlit("registerProcessor('");
    reveal_strlit("'");
    // The text of `SHIM_TEMPLATE`, letter for letter, so that Verus sees its characters.
    reveal_strlit(r#"
const BANK = __BANK__;
class AwsmWasm extends AudioWorkletProcessor {
  static get parameterDescriptors() {
    const d = [];
    for (let i = 0; i < BANK; i++) {
      d.push({ name: 'p' + i, defaultValue: 0,
               minValue: -3.4e38, maxValue: 3.4e38, automationRate: 'k-rate' });
    }
    return d;
  }
  constructor(opts) {
    super();
    const po = (opts && opts.processorOptions) || {};
    this.ok = false;
    try {
      this.inst = new WebAssembly.Instance(po.module, {});
      const ex = this.inst.exports;
      this.ex = ex;
      this.mem = ex.memory;
      this.maxFrames = 128;
      if (ex.init) ex.init(sampleRate, this.maxFrames);
      this.paramCount = ex.param_count ? (ex.param_count() | 0) : 0;
      this.inPtr  = ex.input_ptr  ? (ex.input_ptr()  | 0) : 0;
      this.outPtr = ex.output_ptr ? (ex.output_ptr() | 0) : 0;
      this.parPtr = ex.params_ptr ? (ex.params_ptr() | 0) : 0;
      this.chans  = ex.channels ? Math.max(1, ex.channels() | 0) : 1;
      this.run = ex.process || null;
      this.ok = !!(this.mem && this.run);
    } catch (e) {
      // Leave ok=false → passes audio through untouched.
      this.err = String(e);
    }
  }
  process(inputs, outputs, parameters) {
    const out = outputs[0];
    if (!out || !out[0]) return true;
    const frames = out[0].length;
    const inp = inputs[0];
    if (!this.ok) {
      // Pass-through: copy input to output if present, else silence.
      for (let c = 0; c < out.length; c++) {
        if (inp && inp[c]) out[c].set(inp[c]); else out[c].fill(0);
      }
      return true;
    }
    const buf = this.mem.buffer;
    // Parameters → wasm memory (k-rate: one value per quantum).
    if (this.parPtr && this.paramCount) {
      const pv = new Float32Array(buf, this.parPtr, this.paramCount);
      for (let i = 0; i < this.paramCount; i++) {
        const a = parameters['p' + i];
        pv[i] = a ? a[0] : 0;
      }
    }
    const CH = this.chans, MF = this.maxFrames;
    // Inputs → wasm planar regions (channel c at byte offset ptr + c*MF*4).
    // A mono input is duplicated to every channel.
    if (this.inPtr) {
      for (let c = 0; c < CH; c++) {
        const region = new Float32Array(buf, this.inPtr + c * MF * 4, frames);
        const src = inp && inp.length ? inp[Math.min(c, inp.length - 1)] : null;
        if (src) region.set(src.subarray(0, frames)); else region.fill(0);
      }
    }
    this.run(frames);
    // Outputs ← wasm planar regions (clamp channel index to what the module has).
    if (this.outPtr) {
      for (let c = 0; c < out.length; c++) {
        const region = new Float32Array(buf, this.outPtr + Math.min(c, CH - 1) * MF * 4, frames);
        out[c].set(region.subarray(0, frames));
      }
    }
    return true;
  }
}
registerProcessor('awsm-wasm', AwsmWasm);
"#);
    let pat = BANK_PLACEHOLDER@;
    let bank = decimal(PARAM_BANK as nat);
    assert(bank == decimal(3).push(digit_char(2)));
    assert(bank =~= seq!['3', '2']);
    lemma_replaced_leaves_no_pattern(SHIM_TEMPLATE@, pat, bank);
    let target = "registerProcessor('"@ + PROCESSOR_NAME@ + "'"@;
    assert(SHIM_TEMPLATE@.subrange(2772, 2801) =~= target);
    lemma_replaced_keeps_text(SHIM_TEMPLATE@, pat, bank, target, 2772);
}

} // verus!
