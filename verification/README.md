# haptic_core

The core of a haptics server for VRChat and bHaptics games, written in Verus:
the decisions and formats of the server are proved against their contracts.

- `src/osc`: the OSC packet reader (first message of a packet or bundle, the
  argument types, and their readings as booleans, floats and vectors).
- `src/api`: camera schema files (fenced JSON, validation) and the indexes of
  local and remote map files.
- `src/vrc`: the VRChat side: the camera id of an avatar, the session loop's
  decisions, contact tags, the camera session (field table, scales, routes)
  and the routing of decoded fields into map updates, and the camera code
  reader (grid detection, bit sampling, field decoding) in `src/vrc/cam`.
- `src/mapping`: map keys, the event schedule of the input map and the node
  store that it drives (a `slotmap` of input nodes, the nodes that each
  event instance owns, event playback onto them, node and slot updates, the
  map snapshot), region sets, and the wire form and region interaction of a
  haptic node.
- `src/haptic`: bHaptics devices and games: motor packing, positions, the
  game connection's event mapping and query parameters, and the projection
  of a tact project onto playback plans.
- `src/devices`: the tick decisions and OSC messages of wifi devices and the
  websocket device protocol.
- `app/`: a headless program around the library: folders, settings file,
  schema files, device discovery, the input map loop and the VRChat socket
  loop.

Floating-point values stay outside the library: it hands out exact integer
forms (bit patterns, fractions, scaled integers) that `app/values.rs` turns
into `f32`.
