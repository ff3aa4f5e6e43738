# kscreenshot

Screen and window capture for Windows (Windows Graphics Capture), with its logic verified
by Verus.

- `src/` is the verified library: rectangle geometry, the occlusion computation that turns
  the z-ordered list of windows into visible regions (`regions`, `window`), frame
  conversion and cropping (`frame`), monitor and window lookup rules (`display`, `window`),
  the capture manager's method selection and target resolution (`manager`), and the plain
  data types (`types`, `error`).
- `app/` is the Windows side: COM and Direct3D setup, enumeration of monitors and windows,
  the capture session, HDR tone mapping in floating point, and writing images. It hands
  plain values to the library and takes plain values back.
- `tests/` exercise the library on concrete values.

Fractional monitor properties (scale factor, SDR white level, chromaticities) are carried
by the library as the bit patterns of their `f32` values; `app/` reads them back through
`ScreenInfoExt`.
