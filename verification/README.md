# valhalla-size-viz

Shows the sizes of Valhalla graph tiles. A batch of tiles is sent to
`POST /api/tile-sizes` together with an encoding (`identity`, `gzip` or `zstd`);
sizes that are not cached yet are fetched from a tile server
([rati](https://github.com/kinkard/rati)).

`src/` is the library, verified with Verus:

- `tiles`: tile ids, their paths, encodings
- `cache`: sizes by level, tile id and encoding, in a `DashMap`
- `upstream`: the request for a tile and the meaning of the reply
- `api`: what of a batch is answered from the cache, what is fetched, and the response
- `laws`: what holds of batches as a whole
- `text`: decimal numerals

`app/` is the web server around it: command line, routes, files, HTTP.
