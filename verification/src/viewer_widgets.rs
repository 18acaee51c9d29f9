//! Widgets of the older viewer window, which keeps its log as a plain queue.
use crate::mesh::Mesh;
use std::collections::VecDeque;
use vstd::prelude::*;

verus! {

/// What the model view draws over the model.
#[derive(Debug, Clone, Copy, PartialEq, Eq)]
pub enum ViewMode {
    SampleText,
    BottomText,
}

/// A scrolling view of the lines of a log.
pub struct LogView<'a> {
    pub log: &'a VecDeque<String>,
}

impl<'a> LogView<'a> {
    pub fn new(log: &'a VecDeque<String>) -> (r: Self)
        ensures
            r.log == log,
    {
        Self { log }
    }
}

/// A table of the headers, surfaces and buffers of one mesh.
pub struct MeshInspector<'a> {
    pub mesh: &'a Mesh,
}

impl<'a> MeshInspector<'a> {
    pub fn new(mesh: &'a Mesh) -> (r: Self)
        ensures
            r.mesh == mesh,
    {
        Self { mesh }
    }
}

} // verus!
