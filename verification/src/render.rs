//! What the simulation hands to a renderer: commands to draw the entities,
//! and commands to load or replace the text a renderer keeps.

use vstd::prelude::*;
use crate::components::GridVec;

verus! {

/// Asks the renderer to prepare a line of text, or to replace one.
#[derive(Clone, Debug)]
pub enum RenderAssetCommands {
    LoadText { text: String, font: String },
    UpdateText { new_text: String, text: String, font: String },
}

/// A `RenderAssetCommands` as specifications see it.
pub enum AssetCommand {
    LoadText { text: Seq<char>, font: Seq<char> },
    UpdateText { new_text: Seq<char>, text: Seq<char>, font: Seq<char> },
}

impl View for RenderAssetCommands {
    type V = AssetCommand;

    open spec fn view(&self) -> AssetCommand {
        match *self {
            RenderAssetCommands::LoadText { text, font } => AssetCommand::LoadText {
                text: text@,
                font: font@,
            },
            RenderAssetCommands::UpdateText { new_text, text, font } => AssetCommand::UpdateText {
                new_text: new_text@,
                text: text@,
                font: font@,
            },
        }
    }
}

/// The views of a sequence of asset commands.
pub open spec fn asset_views(cmds: Seq<RenderAssetCommands>) -> Seq<AssetCommand> {
    cmds.map_values(|c: RenderAssetCommands| c@)
}

/// Draws a mesh with a material at a cell. `facing` is the grid vector the
/// mesh points along; a mesh that is not turned faces `(1, 0)`.
#[derive(Clone, Debug)]
pub struct DrawMesh2D {
    pub mesh: String,
    pub material: String,
    pub position: GridVec,
    pub facing: GridVec,
}

/// Draws a line of text at a cell.
#[derive(Clone, Debug)]
pub struct DrawFont {
    pub text: String,
    pub font: String,
    pub position: GridVec,
}

/// One thing to draw.
#[derive(Clone, Debug)]
pub enum RenderCommand {
    DrawMesh2D(DrawMesh2D),
    DrawFont(DrawFont),
}

/// A `RenderCommand` as specifications see it.
pub enum Drawing {
    Mesh { mesh: Seq<char>, material: Seq<char>, position: GridVec, facing: GridVec },
    Font { text: Seq<char>, font: Seq<char>, position: GridVec },
}

impl View for RenderCommand {
    type V = Drawing;

    open spec fn view(&self) -> Drawing {
        match *self {
            RenderCommand::DrawMesh2D(d) => Drawing::Mesh {
                mesh: d.mesh@,
                material: d.material@,
                position: d.position,
                facing: d.facing,
            },
            RenderCommand::DrawFont(d) => Drawing::Font {
                text: d.text@,
                font: d.font@,
                position: d.position,
            },
        }
    }
}

/// The views of a sequence of render commands.
pub open spec fn drawings(cmds: Seq<RenderCommand>) -> Seq<Drawing> {
    cmds.map_values(|c: RenderCommand| c@)
}

} // verus!
