# nv1_ros

Verified core of the NV1 soccer robot's three ROS 2 nodes.

- `src/` (Verus): the camera pipeline string (`pipeline`, `decimal`), blob
  selection and HSV thresholds of the goal detector (`vision`), frame
  assembly, COBS unstuffing and report decisions of the hub link (`hub`),
  and the decision clock of the driving policy (`policy`).
- `app/`: the nodes themselves — ROS topics, the serial port, GPIO, OpenCV
  on the GPU, the ONNX model and all floating-point work.
- `tests/`: tests of the library, including frames produced by `postcard`.
