use vstd::prelude::*;
use crate::geometry::Vertex;

verus! {

/// Raw texture pixels as the backend hands them over.
#[derive(Debug)]
pub struct TexturePayload {
    pub data: Vec<u8>,
    pub width: u32,
    pub height: u32,
}

/// What is submitted to the texture loader for one submodel.
#[derive(Debug)]
pub enum TextureData {
    /// The backend's pixels, submitted as they are.
    Pixels { data: Vec<u8>, width: u32, height: u32 },
    /// A fully opaque one-pixel white texture: the identity for material tinting.
    FlatWhite,
}

/// Mathematical value of a `TextureData`.
pub enum TextureView {
    Pixels { data: Seq<u8>, width: u32, height: u32 },
    FlatWhite,
}

impl View for TextureData {
    type V = TextureView;

    open spec fn view(&self) -> TextureView {
        match self {
            TextureData::Pixels { data, width, height } => TextureView::Pixels {
                data: data@,
                width: *width,
                height: *height,
            },
            TextureData::FlatWhite => TextureView::FlatWhite,
        }
    }
}

/// The texture submitted for a submodel with the given payload.
pub open spec fn texture_for_spec(texture: Option<(Seq<u8>, u32, u32)>) -> TextureView {
    match texture {
        Some((data, width, height)) => TextureView::Pixels { data, width, height },
        None => TextureView::FlatWhite,
    }
}

/// The payload of an optional texture, as plain values.
pub open spec fn payload_view(t: Option<TexturePayload>) -> Option<(Seq<u8>, u32, u32)> {
    match t {
        Some(p) => Some((p.data@, p.width, p.height)),
        None => None,
    }
}

/// Chooses the texture for a submodel: its own pixels, or the flat white fallback.
pub fn texture_for(texture: &Option<TexturePayload>) -> (r: TextureData)
    ensures
        r@ == texture_for_spec(payload_view(*texture)),
{
    match texture {
        Some(t) => {
            let data = t.data.clone();
            assert(data@ =~= t.data@);
            TextureData::Pixels { data, width: t.width, height: t.height }
        },
        None => TextureData::FlatWhite,
    }
}

/// A material: the application's default material with only its albedo
/// replaced by the texture with id `albedo`.
#[derive(Clone, Copy, Debug, PartialEq, Eq)]
pub struct Material {
    pub albedo: u64,
}

/// Loaded meshes and textures, each addressed by its position in the table.
pub struct AssetTable {
    pub meshes: Vec<Vec<Vertex>>,
    pub textures: Vec<TextureData>,
}

/// Mathematical value of an `AssetTable`.
pub struct AssetsView {
    pub meshes: Seq<Seq<Vertex>>,
    pub textures: Seq<TextureView>,
}

impl View for AssetTable {
    type V = AssetsView;

    open spec fn view(&self) -> AssetsView {
        AssetsView {
            meshes: self.meshes@.map_values(|m: Vec<Vertex>| m@),
            textures: self.textures@.map_values(|t: TextureData| t@),
        }
    }
}

impl AssetTable {
    /// An empty table.
    pub fn new() -> (r: AssetTable)
        ensures
            r@.meshes == Seq::<Seq<Vertex>>::empty(),
            r@.textures == Seq::<TextureView>::empty(),
    {
        let r = AssetTable { meshes: Vec::new(), textures: Vec::new() };
        assert(r@.meshes =~= Seq::<Seq<Vertex>>::empty());
        assert(r@.textures =~= Seq::<TextureView>::empty());
        r
    }

    /// Stores a mesh and returns its id.
    pub fn load_mesh(&mut self, mesh: Vec<Vertex>) -> (id: u64)
        ensures
            id == old(self)@.meshes.len(),
            final(self)@.meshes == old(self)@.meshes.push(mesh@),
            final(self)@.textures == old(self)@.textures,
    {
        let id = self.meshes.len() as u64;
        self.meshes.push(mesh);
        assert(self@.meshes =~= old(self)@.meshes.push(mesh@));
        id
    }

    /// Stores a texture and returns its id.
    pub fn load_texture(&mut self, texture: TextureData) -> (id: u64)
        ensures
            id == old(self)@.textures.len(),
            final(self)@.textures == old(self)@.textures.push(texture@),
            final(self)@.meshes == old(self)@.meshes,
    {
        let id = self.textures.len() as u64;
        self.textures.push(texture);
        assert(self@.textures =~= old(self)@.textures.push(texture@));
        id
    }
}

} // verus!
