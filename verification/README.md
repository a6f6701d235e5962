# h264_passthrough

Publishes pre-encoded Annex-B H.264 access units over WebRTC without encoding
them again. The library decides; the host performs.

- `src/annex_b.rs` finds start codes and cuts a byte stream into NAL units.
- `src/access_unit.rs` groups NAL units into access units, from a whole file or
  from a stream that arrives in chunks.
- `src/publisher.rs` gives each access unit its time and decides the steps of a
  publishing session.
- `src/video_source.rs` and `src/video_source/native.rs` hold the video sources.
  A source hands out the calls that the platform has to make, in order.
- The `laws.rs` files state what holds of these together: that chunking a stream
  does not matter, that no byte is lost, that one dummy frame follows each
  access unit however pushes interleave, that captures do not overlap, and that
  no frame queue stays registered once every handle on a source has been let go
  of through `drop_call`. The last of these takes it that exactly one of the
  drops gets hold of the source's state, which `std` documents of
  `Arc::into_inner` and no contract here states. A handle that merely goes out of
  scope asks for nothing; the host's types drop their handles through
  `drop_call`.
- `app/` makes the calls: the native encoder queue, files, sockets and the clock.

Input must be Annex-B with start codes (`00 00 01` or `00 00 00 01`). No pacing
is applied; the frame rate is used only to generate timestamps.
