//! Shader assets: the default shader paths, loading shader sources, and
//! where asset files live relative to the executable.

use vstd::prelude::*;
use crate::assets::{AssetManager, AssetManagerError};

verus! {

broadcast use vstd::string::to_string_from_display_ensures_for_str;

/// The sources of a vertex and a fragment shader.
#[derive(Debug, Clone)]
pub struct ShaderAsset {
    pub vertex_shader_source: String,
    pub fragment_shader_source: String,
}

/// Where the sources of a vertex and a fragment shader are, relative to
/// the assets directory.
#[derive(Debug, Clone)]
pub struct ShaderAssetPath {
    pub vertex_shader_path: String,
    pub fragment_shader_path: String,
}

/// Why loading a shader failed.
#[derive(Debug, PartialEq, Eq, Structural, Clone, Copy)]
pub enum ShaderError {
    FragShaderLoadErr,
    VertShaderLoadErr,
}

/// The shader that two read results make: the vertex source is checked
/// first.
pub open spec fn shader_from_sources(vertex: Option<String>, fragment: Option<String>) -> Result<
    ShaderAsset,
    ShaderError,
> {
    match vertex {
        None => Err(ShaderError::VertShaderLoadErr),
        Some(v) => match fragment {
            None => Err(ShaderError::FragShaderLoadErr),
            Some(f) => Ok(ShaderAsset { vertex_shader_source: v, fragment_shader_source: f }),
        },
    }
}

/// Whether `r` is what loading `vertex_path` and `fragment_path` with
/// `read` gives, for some outcome of each read.
pub open spec fn loaded_with<F: Fn(&str) -> Option<String>>(
    read: F,
    vertex_path: Seq<char>,
    fragment_path: Seq<char>,
    r: Result<ShaderAsset, ShaderError>,
) -> bool {
    exists|vp: &str, fp: &str, v: Option<String>, f: Option<String>|
        {
            &&& vp@ == vertex_path
            &&& fp@ == fragment_path
            &&& #[trigger] call_ensures(read, (vp,), v)
            &&& #[trigger] call_ensures(read, (fp,), f)
            &&& r == shader_from_sources(v, f)
        }
}

/// The path of the default vertex shader.
pub fn get_default_vertex_shader_path() -> (r: String)
    ensures
        r@ == "shaders/default.vert"@,
{
    "shaders/default.vert".to_string()
}

/// The path of the default fragment shader.
pub fn get_default_fragment_shader_path() -> (r: String)
    ensures
        r@ == "shaders/default.frag"@,
{
    "shaders/default.frag".to_string()
}

/// The path of the default framebuffer vertex shader.
pub fn get_default_framebuffer_vertex_shader_path() -> (r: String)
    ensures
        r@ == "shaders/default_framebuffer.vert"@,
{
    "shaders/default_framebuffer.vert".to_string()
}

/// The path of the default framebuffer fragment shader.
pub fn get_default_framebuffer_fragment_shader_path() -> (r: String)
    ensures
        r@ == "shaders/default_framebuffer.frag"@,
{
    "shaders/default_framebuffer.frag".to_string()
}

/// The path of the default instanced vertex shader.
pub fn get_default_instanced_vertex_shader_path() -> (r: String)
    ensures
        r@ == "shaders/default_instanced.vert"@,
{
    "shaders/default_instanced.vert".to_string()
}

/// The path of the default instanced fragment shader.
pub fn get_default_instanced_fragment_shader_path() -> (r: String)
    ensures
        r@ == "shaders/default_instanced.frag"@,
{
    "shaders/default_instanced.frag".to_string()
}

/// The path of the default texture.
pub fn get_default_texture_path() -> (r: String)
    ensures
        r@ == "textures/default_texture.png"@,
{
    "textures/default_texture.png".to_string()
}

impl ShaderAsset {
    /// Loads the shader whose sources `path` names; `read` reads a file
    /// of the assets directory and gives `None` where that fails.
    pub fn load_from_file<F: Fn(&str) -> Option<String>>(path: &ShaderAssetPath, read: F) -> (r:
        Result<ShaderAsset, ShaderError>)
        requires
            forall|p: &str| call_requires(read, (p,)),
        ensures
            loaded_with(read, path.vertex_shader_path@, path.fragment_shader_path@, r),
    {
        let vp = path.vertex_shader_path.as_str();
        let fp = path.fragment_shader_path.as_str();
        let vertex_shader_source = read(vp);
        let fragment_shader_source = read(fp);
        let ghost v = vertex_shader_source;
        let ghost f = fragment_shader_source;
        let r = match vertex_shader_source {
            None => Err(ShaderError::VertShaderLoadErr),
            Some(vertex_shader_source) => match fragment_shader_source {
                None => Err(ShaderError::FragShaderLoadErr),
                Some(fragment_shader_source) => Ok(
                    ShaderAsset { vertex_shader_source, fragment_shader_source },
                ),
            },
        };
        assert(r == shader_from_sources(v, f));
        r
    }

    /// Loads the default shader.
    pub fn load_default_shader<F: Fn(&str) -> Option<String>>(read: F) -> (r: Result<
        ShaderAsset,
        ShaderError,
    >)
        requires
            forall|p: &str| call_requires(read, (p,)),
        ensures
            loaded_with(read, "shaders/default.vert"@, "shaders/default.frag"@, r),
    {
        let shader_path = ShaderAssetPath {
            vertex_shader_path: get_default_vertex_shader_path(),
            fragment_shader_path: get_default_fragment_shader_path(),
        };
        ShaderAsset::load_from_file(&shader_path, read)
    }

    /// Loads the default framebuffer shader.
    pub fn load_default_framebuffer_shader<F: Fn(&str) -> Option<String>>(read: F) -> (r: Result<
        ShaderAsset,
        ShaderError,
    >)
        requires
            forall|p: &str| call_requires(read, (p,)),
        ensures
            loaded_with(
                read,
                "shaders/default_framebuffer.vert"@,
                "shaders/default_framebuffer.frag"@,
                r,
            ),
    {
        let shader_path = ShaderAssetPath {
            vertex_shader_path: get_default_framebuffer_vertex_shader_path(),
            fragment_shader_path: get_default_framebuffer_fragment_shader_path(),
        };
        ShaderAsset::load_from_file(&shader_path, read)
    }

    /// Loads the default instanced shader.
    pub fn load_default_instanced_shader<F: Fn(&str) -> Option<String>>(read: F) -> (r: Result<
        ShaderAsset,
        ShaderError,
    >)
        requires
            forall|p: &str| call_requires(read, (p,)),
        ensures
            loaded_with(
                read,
                "shaders/default_instanced.vert"@,
                "shaders/default_instanced.frag"@,
                r,
            ),
    {
        let shader_path = ShaderAssetPath {
            vertex_shader_path: get_default_instanced_vertex_shader_path(),
            fragment_shader_path: get_default_instanced_fragment_shader_path(),
        };
        ShaderAsset::load_from_file(&shader_path, read)
    }

    /// Loads the shadow map shader.
    pub fn load_shadow_shader<F: Fn(&str) -> Option<String>>(read: F) -> (r: Result<
        ShaderAsset,
        ShaderError,
    >)
        requires
            forall|p: &str| call_requires(read, (p,)),
        ensures
            loaded_with(read, "shaders/shadow_map.vert"@, "shaders/shadow_map.frag"@, r),
    {
        let shader_path = ShaderAssetPath {
            vertex_shader_path: "shaders/shadow_map.vert".to_string(),
            fragment_shader_path: "shaders/shadow_map.frag".to_string(),
        };
        ShaderAsset::load_from_file(&shader_path, read)
    }

    /// Loads the shader that `path` names and preloads it under `asset_id`.
    /// Fails where loading fails or the id is taken.
    pub fn preload_shader_asset<M, S, T, F: Fn(&str) -> Option<String>>(
        assets: &mut AssetManager<M, S, T, ShaderAsset>,
        asset_id: String,
        path: ShaderAssetPath,
        read: F,
    ) -> (r: Result<(), ()>)
        requires
            old(assets).wf(),
            forall|p: &str| call_requires(read, (p,)),
        ensures
            final(assets).wf(),
            final(assets).models() == old(assets).models(),
            final(assets).sounds() == old(assets).sounds(),
            final(assets).textures() == old(assets).textures(),
            exists|loaded: Result<ShaderAsset, ShaderError>|
                {
                    &&& #[trigger] loaded_with(
                        read,
                        path.vertex_shader_path@,
                        path.fragment_shader_path@,
                        loaded,
                    )
                    &&& match loaded {
                        Ok(asset) => if old(assets).shaders().contains_key(asset_id@) {
                            &&& final(assets).shaders() == old(assets).shaders()
                            &&& r is Err
                        } else {
                            &&& final(assets).shaders() == old(assets).shaders().insert(
                                asset_id@,
                                asset,
                            )
                            &&& r is Ok
                        },
                        Err(_) => final(assets).shaders() == old(assets).shaders() && r is Err,
                    }
                },
    {
        let loaded = Self::load_from_file(&path, read);
        let ghost g = loaded;
        match loaded {
            Ok(asset) => {
                let ghost a = asset;
                match assets.preload_shader_asset(asset_id, asset) {
                    Ok(_) => {
                        assert(loaded_with(read, path.vertex_shader_path@, path.fragment_shader_path@, g));
                        Ok(())
                    },
                    Err(_) => {
                        assert(loaded_with(read, path.vertex_shader_path@, path.fragment_shader_path@, g));
                        Err(())
                    },
                }
            },
            Err(_) => {
                assert(loaded_with(read, path.vertex_shader_path@, path.fragment_shader_path@, g));
                Err(())
            },
        }
    }
}

/// What remains of `s` once everything after its last `/` is cut off;
/// nothing where `s` holds no `/`.
pub open spec fn dir_prefix(s: Seq<char>) -> Seq<char>
    decreases s.len(),
{
    if s.len() == 0 {
        s
    } else if s.last() == '/' {
        s
    } else {
        dir_prefix(s.drop_last())
    }
}

/// `s` with every `/` turned into `\`.
pub open spec fn backslashed(s: Seq<char>) -> Seq<char> {
    s.map_values(|c: char| if c == '/' { '\\' } else { c })
}

/// The path of the asset file `path`: the `assets` directory beside the
/// executable at `exe_path`, with backslashes on Windows.
pub open spec fn full_asset_path(exe_path: Seq<char>, path: Seq<char>, windows: bool) -> Seq<char> {
    let p = dir_prefix(exe_path) + "assets/"@ + path;
    if windows {
        backslashed(p)
    } else {
        p
    }
}

proof fn lemma_dir_prefix(s: Seq<char>, k: int)
    requires
        0 <= k <= s.len(),
        k == 0 || s[k - 1] == '/',
        forall|j: int| k <= j < s.len() ==> s[j] != '/',
    ensures
        dir_prefix(s) == s.take(k),
    decreases s.len(),
{
    if s.len() == k {
        if k == 0 {
            assert(s =~= s.take(0));
        } else {
            assert(s.last() == '/');
            assert(s =~= s.take(k));
        }
    } else {
        assert(s.last() != '/');
        let t = s.drop_last();
        assert forall|j: int| k <= j < t.len() implies t[j] != '/' by {
            assert(t[j] == s[j]);
        }
        if k > 0 {
            assert(t[k - 1] == s[k - 1]);
        }
        lemma_dir_prefix(t, k);
        assert(t.take(k) =~= s.take(k));
    }
}

/// The path of the asset file `path`, given the executable's path.
/// `windows` says whether paths use backslashes.
pub fn get_full_asset_path(exe_path: &str, path: &str, windows: bool) -> (r: String)
    ensures
        r@ == full_asset_path(exe_path@, path@, windows),
{
    let n = exe_path.unicode_len();
    let mut k: usize = 0;
    let mut i: usize = 0;
    while i < n
        invariant
            n == exe_path@.len(),
            k <= i <= n,
            k == 0 || exe_path@[k - 1] == '/',
            forall|j: int| k <= j < i ==> exe_path@[j] != '/',
        decreases n - i,
    {
        if exe_path.get_char(i) == '/' {
            k = i + 1;
        }
        i = i + 1;
    }
    proof {
        lemma_dir_prefix(exe_path@, k as int);
    }
    let mut full_path = exe_path.substring_char(0, k).to_string();
    full_path.append("assets/");
    full_path.append(path);
    if !windows {
        return full_path;
    }
    let src = full_path.as_str();
    let m = src.unicode_len();
    let mut out = String::new();
    let mut i: usize = 0;
    while i < m
        invariant
            m == src@.len(),
            i <= m,
            out@ == backslashed(src@.take(i as int)),
        decreases m - i,
    {
        let c = src.get_char(i);
        if c == '/' {
            out.append("\\");
        } else {
            out.append(src.substring_char(i, i + 1));
        }
        proof {
            reveal_strlit("\\");
            assert(backslashed(src@.take(i + 1)) =~= backslashed(src@.take(i as int)) + seq![
                if c == '/' { '\\' } else { c },
            ]);
            assert(src@.subrange(i as int, i + 1) =~= seq![c]);
        }
        i = i + 1;
    }
    assert(src@.take(m as int) =~= src@);
    out
}

} // verus!
