# lib

The core of a text-mode city renderer and taxi game, verified with Verus:
the number system and the generators it stands on, the glyph catalogue and
the bitmap font, the frame, the elevation and shadow maps, the building
facades, the sky and weather, the road markings and the rules of the road,
the camera, the per-frame cast that walks the grid column by column and
turns the city into a frame, the car physics and collisions, the walking
network, the walking tour, the taxi autopilot, and the whole moving city:
starting a shift (the furniture on the pavements, the cab parked at a kerb,
the traffic pool and the crowd), the tick that drives the cab, recycles and
steers the traffic and collides it with the cab and with itself, knocks
the furniture over, walks the people and settles the fare, the hailing of
fares with their trail of coins, the shift's clock and the billboards drawn
each frame.

Every function carries a contract that Verus proves, and the properties the
library promises of itself (that a shadow never falls on its own tower, that
a step never leaves the walking network, that flow and lane agree on which
side of the road a car belongs, that the tour never walks into a building,
and so on) are stated and proved beside the code they are about.

- `src/`: the library, one module per subject.
- `tests/`: ordinary Rust tests run against the compiled library.
- `app/`: the floating-point conversions that setup code and diagnostics
  use round the library, and the cast's report with its distance in world
  units.

The city itself is not generated here: the functions that read it take what
they read as plain values and closures, such as the street plan's strips
through a cell, what stands in each cell, whether a car can be there or a
cell is inside a junction, the walking network, and the network of the
carriageway for the taxi's routes and the coins.
