//! A planar-graph model of leaf morphogenesis: a mesh of role-tagged
//! vertices and index-pair edges that grows over discrete steps, with
//! vein elongation and triangulation-preserving edge splitting.

pub mod laws;
pub mod leaf;
pub mod mesh;
