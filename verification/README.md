# bevy_mesh_decal

Decals sprayed onto triangle meshes, for Bevy. A decal is a box given by a
transform; the triangles of a `Decalable` entity's mesh that the box covers
are cut down to the part inside it and become a new mesh, a child of the
entity, drawn with the decal's material.

- `src/` is the verified library (Verus): the rules that decide, from the
  comparisons of projected coordinates with the faces of the box, which
  triangles are discarded, kept whole or clipped (`clip`), how a triangle is
  sliced against one face and how the clipping proceeds face by face
  (`Clipper`), how the decal's triangle list is built source triangle by
  source triangle (`assembly`), how it is laid out as a mesh (`mesh`), and how
  many decals one entity carries (`decalable`). `laws` holds the proved
  properties of slicing, clipping and layout.
- `app/` is the Bevy plugin: the systems and components, and the
  floating-point geometry (projection, dot products, interpolation).
- `tests/` runs the library on concrete triangles.
