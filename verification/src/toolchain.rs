//! The wasm toolchain's layout: where its component tools and the sysroot
//! live, as plain path strings. Discovering the paths from the environment is
//! the caller's business; this module holds the layout rules.

use vstd::prelude::*;

verus! {

use crate::text;

/// The roots of the toolchain's components.
#[derive(Clone, Debug)]
pub struct WasmToolchain {
    pub binaryen: String,
    pub emscripten: String,
    pub llvm: String,
    pub sysroot: String,
}

impl WasmToolchain {
    /// A toolchain with the given component roots.
    pub fn with_paths(binaryen: String, emscripten: String, llvm: String, sysroot: String) -> (r:
        WasmToolchain)
        ensures
            r.binaryen == binaryen,
            r.emscripten == emscripten,
            r.llvm == llvm,
            r.sysroot == sysroot,
    {
        WasmToolchain { binaryen, emscripten, llvm, sysroot }
    }

    /// The path of an LLVM tool: `<llvm>/bin/<tool>`.
    pub fn llvm_tool(&self, tool: &str) -> (r: String)
        ensures
            r@ == text::spec_path_join(text::spec_path_join(self.llvm@, "bin"@), tool@),
    {
        let bin = text::path_join(self.llvm.as_str(), "bin");
        text::path_join(bin.as_str(), tool)
    }

    /// The path of a binaryen tool: `<binaryen>/bin/<tool>`.
    pub fn binaryen_tool(&self, tool: &str) -> (r: String)
        ensures
            r@ == text::spec_path_join(text::spec_path_join(self.binaryen@, "bin"@), tool@),
    {
        let bin = text::path_join(self.binaryen.as_str(), "bin");
        text::path_join(bin.as_str(), tool)
    }

    pub fn sysroot(&self) -> (r: &String)
        ensures
            r == &self.sysroot,
    {
        &self.sysroot
    }

    pub fn sysroot_cache(&self) -> (r: &String)
        ensures
            r == &self.sysroot,
    {
        &self.sysroot
    }

    /// The library directory of the sysroot.
    pub fn sysroot_lib(&self) -> (r: String)
        ensures
            r@ == text::spec_path_join(self.sysroot@, "lib"@),
    {
        text::path_join(self.sysroot.as_str(), "lib")
    }
}

/// A tool that carries a toolchain and lets the shared argument tables reach
/// it.
pub trait WasmToolchainTool {
    fn wasm_toolchain(&self) -> &WasmToolchain;

    fn wasm_toolchain_mut(&mut self) -> &mut WasmToolchain;
}

} // verus!
