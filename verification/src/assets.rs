//! The asset registry, shader sources and asset paths.
//!
//! Assets are preloaded under a string id and then looked up by the id
//! handle that preloading gave. An id is never loaded twice.

use vstd::prelude::*;
use crate::string_map::StrMap;

verus! {

broadcast use vstd::string::to_string_from_display_ensures_for_str;

/// Why preloading an asset failed.
#[derive(Debug, PartialEq, Eq, Structural, Clone, Copy)]
pub enum AssetManagerError {
    /// An asset with this id is loaded already.
    AssetAlreadyLoaded,
    /// The asset could not be created.
    AssetCreationError,
}

/// The id of a preloaded model asset.
#[derive(Debug)]
pub struct ModelAssetId {
    id: String,
}

/// The id of a preloaded sound asset.
#[derive(Debug)]
pub struct SoundAssetId {
    id: String,
}

/// The id of a preloaded texture asset.
#[derive(Debug)]
pub struct TextureAssetId {
    id: String,
}

/// The id of a preloaded shader asset.
#[derive(Debug)]
pub struct ShaderAssetId {
    id: String,
}

impl ModelAssetId {
    /// The id as text.
    pub closed spec fn spec_id(&self) -> Seq<char> {
        self.id@
    }

    /// The id as text.
    pub fn get_id(&self) -> (r: &str)
        ensures
            r@ == self.spec_id(),
    {
        self.id.as_str()
    }
}

impl SoundAssetId {
    /// The id as text.
    pub closed spec fn spec_id(&self) -> Seq<char> {
        self.id@
    }

    /// The id as text.
    pub fn get_id(&self) -> (r: &str)
        ensures
            r@ == self.spec_id(),
    {
        self.id.as_str()
    }
}

impl TextureAssetId {
    /// The id as text.
    pub closed spec fn spec_id(&self) -> Seq<char> {
        self.id@
    }

    /// The id as text.
    pub fn get_id(&self) -> (r: &str)
        ensures
            r@ == self.spec_id(),
    {
        self.id.as_str()
    }
}

impl ShaderAssetId {
    /// The id as text.
    pub closed spec fn spec_id(&self) -> Seq<char> {
        self.id@
    }

    /// The id as text.
    pub fn get_id(&self) -> (r: &str)
        ensures
            r@ == self.spec_id(),
    {
        self.id.as_str()
    }
}

/// The loaded assets of each kind, by id. `M`, `S`, `T` and `H` are the
/// model, sound, texture and shader asset types.
pub struct AssetManager<M, S, T, H> {
    loaded_model_assets: StrMap<M>,
    loaded_sound_assets: StrMap<S>,
    loaded_texture_assets: StrMap<T>,
    loaded_shader_assets: StrMap<H>,
}

/// Whether `r` is the outcome of preloading under `id` into `before`,
/// giving `after`: an id that is there already is refused and nothing
/// changes; a new one is added.
pub open spec fn preloaded<V>(
    before: Map<Seq<char>, V>,
    after: Map<Seq<char>, V>,
    id: Seq<char>,
    asset: V,
    r: Result<Seq<char>, AssetManagerError>,
) -> bool {
    if before.contains_key(id) {
        after == before && r == Err::<Seq<char>, AssetManagerError>(
            AssetManagerError::AssetAlreadyLoaded,
        )
    } else {
        after == before.insert(id, asset) && r == Ok::<Seq<char>, AssetManagerError>(id)
    }
}

impl<M, S, T, H> AssetManager<M, S, T, H> {
    /// The loaded model assets.
    pub closed spec fn models(&self) -> Map<Seq<char>, M> {
        self.loaded_model_assets@
    }

    /// The loaded sound assets.
    pub closed spec fn sounds(&self) -> Map<Seq<char>, S> {
        self.loaded_sound_assets@
    }

    /// The loaded texture assets.
    pub closed spec fn textures(&self) -> Map<Seq<char>, T> {
        self.loaded_texture_assets@
    }

    /// The loaded shader assets.
    pub closed spec fn shaders(&self) -> Map<Seq<char>, H> {
        self.loaded_shader_assets@
    }

    /// The manager's well-formedness.
    pub closed spec fn wf(&self) -> bool {
        &&& self.loaded_model_assets.wf()
        &&& self.loaded_sound_assets.wf()
        &&& self.loaded_texture_assets.wf()
        &&& self.loaded_shader_assets.wf()
    }

    /// A manager with nothing loaded.
    pub fn new() -> (r: Self)
        ensures
            r.wf(),
            r.models() == Map::<Seq<char>, M>::empty(),
            r.sounds() == Map::<Seq<char>, S>::empty(),
            r.textures() == Map::<Seq<char>, T>::empty(),
            r.shaders() == Map::<Seq<char>, H>::empty(),
    {
        AssetManager {
            loaded_model_assets: StrMap::new(),
            loaded_sound_assets: StrMap::new(),
            loaded_texture_assets: StrMap::new(),
            loaded_shader_assets: StrMap::new(),
        }
    }

    /// Loads a model asset under `asset_id`. Where the id is taken, `load`
    /// is not called and the preload is refused; where `load` gives no
    /// asset, the preload fails and nothing changes.
    pub fn preload_model_asset<F: FnOnce() -> Option<M>>(
        &mut self,
        asset_id: String,
        load: F,
    ) -> (r: Result<ModelAssetId, AssetManagerError>)
        requires
            old(self).wf(),
            call_requires(load, ()),
        ensures
            final(self).wf(),
            final(self).sounds() == old(self).sounds(),
            final(self).textures() == old(self).textures(),
            final(self).shaders() == old(self).shaders(),
            old(self).models().contains_key(asset_id@) ==> {
                &&& final(self).models() == old(self).models()
                &&& r == Err::<ModelAssetId, AssetManagerError>(AssetManagerError::AssetAlreadyLoaded)
            },
            !old(self).models().contains_key(asset_id@) ==> exists|loaded: Option<M>|
                {
                    &&& #[trigger] call_ensures(load, (), loaded)
                    &&& match loaded {
                        Some(m) => {
                            &&& final(self).models() == old(self).models().insert(asset_id@, m)
                            &&& r matches Ok(id) && id.spec_id() == asset_id@
                        },
                        None => {
                            &&& final(self).models() == old(self).models()
                            &&& r == Err::<ModelAssetId, AssetManagerError>(
                                AssetManagerError::AssetCreationError,
                            )
                        },
                    }
                },
    {
        if self.loaded_model_assets.contains_key(asset_id.as_str()) {
            return Err(AssetManagerError::AssetAlreadyLoaded);
        }
        let loaded = load();
        match loaded {
            Some(asset) => {
                let id = asset_id.clone();
                self.loaded_model_assets.insert(asset_id, asset);
                Ok(ModelAssetId { id })
            },
            None => Err(AssetManagerError::AssetCreationError),
        }
    }

    /// Puts `placeholder` in place of a model asset under `asset_id`, for
    /// the real asset to replace once it is loaded in the background.
    pub fn background_preload_model_asset(&mut self, asset_id: String, placeholder: M) -> (r:
        Result<ModelAssetId, AssetManagerError>)
        requires
            old(self).wf(),
        ensures
            final(self).wf(),
            final(self).sounds() == old(self).sounds(),
            final(self).textures() == old(self).textures(),
            final(self).shaders() == old(self).shaders(),
            preloaded(
                old(self).models(),
                final(self).models(),
                asset_id@,
                placeholder,
                match r {
                    Ok(id) => Ok(id.spec_id()),
                    Err(e) => Err(e),
                },
            ),
    {
        let id = asset_id.clone();
        match self.loaded_model_assets.insert_new(asset_id, placeholder) {
            Ok(()) => Ok(ModelAssetId { id }),
            Err(_) => Err(AssetManagerError::AssetAlreadyLoaded),
        }
    }

    /// Stores a model asset that finished loading under `asset_id`,
    /// replacing what was there.
    pub fn set_loaded_model_asset(&mut self, asset_id: String, asset: M)
        requires
            old(self).wf(),
        ensures
            final(self).wf(),
            final(self).models() == old(self).models().insert(asset_id@, asset),
            final(self).sounds() == old(self).sounds(),
            final(self).textures() == old(self).textures(),
            final(self).shaders() == old(self).shaders(),
    {
        self.loaded_model_assets.insert(asset_id, asset);
    }

    /// Preloads a sound asset under `asset_id`.
    pub fn preload_sound_asset(&mut self, asset_id: String, asset: S) -> (r: Result<
        SoundAssetId,
        AssetManagerError,
    >)
        requires
            old(self).wf(),
        ensures
            final(self).wf(),
            final(self).models() == old(self).models(),
            final(self).textures() == old(self).textures(),
            final(self).shaders() == old(self).shaders(),
            preloaded(
                old(self).sounds(),
                final(self).sounds(),
                asset_id@,
                asset,
                match r {
                    Ok(id) => Ok(id.spec_id()),
                    Err(e) => Err(e),
                },
            ),
    {
        let id = asset_id.clone();
        match self.loaded_sound_assets.insert_new(asset_id, asset) {
            Ok(()) => Ok(SoundAssetId { id }),
            Err(_) => Err(AssetManagerError::AssetAlreadyLoaded),
        }
    }

    /// Preloads a texture asset under `asset_id`.
    pub fn preload_texture_asset(&mut self, asset_id: String, asset: T) -> (r: Result<
        TextureAssetId,
        AssetManagerError,
    >)
        requires
            old(self).wf(),
        ensures
            final(self).wf(),
            final(self).models() == old(self).models(),
            final(self).sounds() == old(self).sounds(),
            final(self).shaders() == old(self).shaders(),
            preloaded(
                old(self).textures(),
                final(self).textures(),
                asset_id@,
                asset,
                match r {
                    Ok(id) => Ok(id.spec_id()),
                    Err(e) => Err(e),
                },
            ),
    {
        let id = asset_id.clone();
        match self.loaded_texture_assets.insert_new(asset_id, asset) {
            Ok(()) => Ok(TextureAssetId { id }),
            Err(_) => Err(AssetManagerError::AssetAlreadyLoaded),
        }
    }

    /// Preloads a shader asset under `asset_id`.
    pub fn preload_shader_asset(&mut self, asset_id: String, asset: H) -> (r: Result<
        ShaderAssetId,
        AssetManagerError,
    >)
        requires
            old(self).wf(),
        ensures
            final(self).wf(),
            final(self).models() == old(self).models(),
            final(self).sounds() == old(self).sounds(),
            final(self).textures() == old(self).textures(),
            preloaded(
                old(self).shaders(),
                final(self).shaders(),
                asset_id@,
                asset,
                match r {
                    Ok(id) => Ok(id.spec_id()),
                    Err(e) => Err(e),
                },
            ),
    {
        let id = asset_id.clone();
        match self.loaded_shader_assets.insert_new(asset_id, asset) {
            Ok(()) => Ok(ShaderAssetId { id }),
            Err(_) => Err(AssetManagerError::AssetAlreadyLoaded),
        }
    }

    /// The id handle of the shader asset `id`, where it is loaded.
    pub fn get_shader_asset_id(&self, id: &str) -> (r: Option<ShaderAssetId>)
        requires
            self.wf(),
        ensures
            r is Some <==> self.shaders().contains_key(id@),
            r matches Some(h) ==> h.spec_id() == id@,
    {
        if self.loaded_shader_assets.contains_key(id) {
            Some(ShaderAssetId { id: id.to_string() })
        } else {
            None
        }
    }

    /// The id handle of the model asset `id`, where it is loaded.
    pub fn get_model_asset_id(&self, id: &str) -> (r: Option<ModelAssetId>)
        requires
            self.wf(),
        ensures
            r is Some <==> self.models().contains_key(id@),
            r matches Some(h) ==> h.spec_id() == id@,
    {
        if self.loaded_model_assets.contains_key(id) {
            Some(ModelAssetId { id: id.to_string() })
        } else {
            None
        }
    }

    /// The id handle of the texture asset `id`, where it is loaded.
    pub fn get_texture_asset_id(&self, id: &str) -> (r: Option<TextureAssetId>)
        requires
            self.wf(),
        ensures
            r is Some <==> self.textures().contains_key(id@),
            r matches Some(h) ==> h.spec_id() == id@,
    {
        if self.loaded_texture_assets.contains_key(id) {
            Some(TextureAssetId { id: id.to_string() })
        } else {
            None
        }
    }

    /// The id handle of the sound asset `id`, where it is loaded.
    pub fn get_sound_asset_id(&self, id: &str) -> (r: Option<SoundAssetId>)
        requires
            self.wf(),
        ensures
            r is Some <==> self.sounds().contains_key(id@),
            r matches Some(h) ==> h.spec_id() == id@,
    {
        if self.loaded_sound_assets.contains_key(id) {
            Some(SoundAssetId { id: id.to_string() })
        } else {
            None
        }
    }

    /// The sound asset that `asset_id` names.
    pub fn get_sound_asset(&self, asset_id: &SoundAssetId) -> (r: Option<&S>)
        requires
            self.wf(),
        ensures
            match r {
                Some(a) => self.sounds().contains_key(asset_id.spec_id()) && *a == self.sounds()[asset_id.spec_id()],
                None => !self.sounds().contains_key(asset_id.spec_id()),
            },
    {
        self.loaded_sound_assets.get(asset_id.get_id())
    }

    /// The texture asset that `asset_id` names.
    pub fn get_texture_asset(&self, asset_id: &TextureAssetId) -> (r: Option<&T>)
        requires
            self.wf(),
        ensures
            match r {
                Some(a) => self.textures().contains_key(asset_id.spec_id()) && *a == self.textures()[asset_id.spec_id()],
                None => !self.textures().contains_key(asset_id.spec_id()),
            },
    {
        self.loaded_texture_assets.get(asset_id.get_id())
    }

    /// The shader asset that `asset_id` names.
    pub fn get_shader_asset(&self, asset_id: &ShaderAssetId) -> (r: Option<&H>)
        requires
            self.wf(),
        ensures
            match r {
                Some(a) => self.shaders().contains_key(asset_id.spec_id()) && *a == self.shaders()[asset_id.spec_id()],
                None => !self.shaders().contains_key(asset_id.spec_id()),
            },
    {
        self.loaded_shader_assets.get(asset_id.get_id())
    }

    /// The shader asset that `asset_id` names, to be changed in place.
    pub fn get_shader_asset_mut(&mut self, asset_id: &ShaderAssetId) -> (r: Option<&mut H>)
        requires
            old(self).wf(),
        ensures
            final(self).wf(),
            final(self).models() == old(self).models(),
            final(self).sounds() == old(self).sounds(),
            final(self).textures() == old(self).textures(),
            match r {
                Some(a) => {
                    &&& old(self).shaders().contains_key(asset_id.spec_id())
                    &&& *a == old(self).shaders()[asset_id.spec_id()]
                    &&& final(self).shaders() == old(self).shaders().insert(asset_id.spec_id(), *final(a))
                },
                None => {
                    &&& !old(self).shaders().contains_key(asset_id.spec_id())
                    &&& final(self).shaders() == old(self).shaders()
                },
            },
    {
        self.loaded_shader_assets.get_mut(asset_id.get_id())
    }

    /// The texture asset loaded under the id `default`.
    pub fn get_default_texture_asset(&self) -> (r: Option<&T>)
        requires
            self.wf(),
        ensures
            match r {
                Some(a) => self.textures().contains_key(default_texture_id()) && *a == self.textures()[default_texture_id()],
                None => !self.textures().contains_key(default_texture_id()),
            },
    {
        proof {
            reveal_strlit("default");
            assert("default"@ =~= default_texture_id());
        }
        self.loaded_texture_assets.get("default")
    }

    /// The model asset that `asset_id` names.
    pub fn get_model_asset(&self, asset_id: &ModelAssetId) -> (r: Option<&M>)
        requires
            self.wf(),
        ensures
            match r {
                Some(a) => self.models().contains_key(asset_id.spec_id()) && *a == self.models()[asset_id.spec_id()],
                None => !self.models().contains_key(asset_id.spec_id()),
            },
    {
        self.loaded_model_assets.get(asset_id.get_id())
    }
}

/// The id under which the default texture is loaded.
pub open spec fn default_texture_id() -> Seq<char> {
    seq!['d', 'e', 'f', 'a', 'u', 'l', 't']
}

/// An asset that was preloaded can be found under its id, and preloading
/// under the same id again is refused and changes nothing.
pub proof fn lemma_preload_once<V>(
    before: Map<Seq<char>, V>,
    after: Map<Seq<char>, V>,
    id: Seq<char>,
    asset: V,
    r: Result<Seq<char>, AssetManagerError>,
    again: Map<Seq<char>, V>,
    other: V,
    r_again: Result<Seq<char>, AssetManagerError>,
)
    requires
        preloaded(before, after, id, asset, r),
        preloaded(after, again, id, other, r_again),
    ensures
        after.contains_key(id),
        r is Ok ==> after[id] == asset,
        again == after,
        r_again == Err::<Seq<char>, AssetManagerError>(AssetManagerError::AssetAlreadyLoaded),
{
}

} // verus!
