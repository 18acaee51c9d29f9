# v_utils

Readers and writers for the file formats of Saints Row 2 (Volition), with
their behaviour stated as Verus contracts and proved.

- `src/` is the verified library:
  - `packfile`, `pack`, `unpack`: `.vpp_pc` archives (header, entries, name
    blocks, file contents) and building them; `unpack` proves that unpacking
    what `pack` builds gives the files back, and how `pack` lays it out.
  - `geometry`, `mesh`, `material`, `static_mesh`: static meshes
    (`.smesh_pc`/`.cmesh_pc`) with their levels of detail, material library and
    GPU buffers. Floating point values are kept as their bit patterns.
  - `wavefront`: the lines of an OBJ dump of a static mesh.
  - `strip`: joining a triangle list into one triangle strip, proved to hold
    every triangle of the list and, apart from degenerate joints, nothing else.
  - `gltf_import`: the rules for replacing a mesh's geometry with a glTF scene,
    and the replacement itself, which changes nothing unless every level passes.
  - `app_data`, `widgets`, `viewer_widgets`: toolkit-independent state of the
    model viewer.
- `app/` is the command-line packfile tool and the parts of the viewer that
  do I/O or compute with floating point numbers.
- `tests/` runs the library on concrete inputs.
