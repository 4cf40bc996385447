# hand-tracking-mouse

Webcam hand tracking that draws the hand skeleton over a live preview,
moves the mouse cursor with the index finger, and clicks on pinches: thumb
and index fingertips for the left button, thumb and middle fingertips for
the right one. A click needs the pinch to close past the press ratio while
no gesture is held and the cooldown since the last click has run out; the
gesture is held until its pinch opens past the release ratio, so holding a
pinch clicks once.

* `src/` is the library, written in Verus and verified: drawing on RGB
  frames (pixels, dots, Bresenham lines, the skeleton), preview scaling,
  region-of-interest and bounding-box geometry, decoding of the landmark
  model's raw output, the tracking state machines of the inference worker
  and of the frame processor, the pinch click logic, the integer settings,
  and camera selection.
* `app/` is the program around it: camera capture (nokhwa), the ONNX
  Runtime session (ort), the preview window (minifb), the settings file
  (serde, toml), the inference worker thread, the mouse events
  (windows-sys), and all floating-point computation on landmark
  coordinates, pinch distances among them.
* `tests/` exercises the library on concrete values.
