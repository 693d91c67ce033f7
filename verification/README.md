# Inferno AoIP

An audio device for networks which speak the Dante protocol, with its logic verified by Verus.

* `src/` is the library. It computes and decides, and does no input or output: what it needs from
  sockets, clocks and files comes as an argument, and what is to be done goes out as a value.
* `tests/` runs the library on concrete values.
* `app/` is the program around it: threads, sockets, discovery, the clock daemon, files, and the
  front ends for pipes, PipeWire and ALSA. It needs the crates `usrvclock`, `searchfire`, `pipewire`
  and `alsa_sys_all` besides those in `Cargo.toml`.

## Modules

| Modules | Subject |
|---|---|
| `ring_buffer`, `ring_laws`, `flags` | buffers which samples are written to out of order and read from by position |
| `samples_utils`, `media_laws` | samples in packets, dither |
| `media_clock`, `common` | clocks which wrap around |
| `flows_tx`, `transmit_round`, `flows_transmitter`, `flow_table` | sending of flows |
| `flows_rx`, `flows_receiver` | receiving of flows |
| `samples_collector`, `real_time_box_channel`, `recorder` | handing samples over to users |
| `channels_subscriber`, `subscriber` | finding sources of subscribed channels |
| `protocol`, `wire`, `byte_utils`, `hex_text`, `text` | packets and texts |
| `arc_server`, `cmc_server`, `info_mcast_server`, `flows_control_server`, `flow_request_laws` | answers to requests |
| `mdns_client`, `mdns_server`, `advertisement_laws` | discovery |
| `self_info`, `device_info`, `state_storage`, `device_server`, `net_utils` | the device itself |
| `soundcard`, `wired`, `channel_rx_buffer` | virtual sound cards |

## What is trusted

Functions marked `external_body` call other crates: `bytebuffer` (`wire`), `bool_vec` (`flags`),
`hex` (`hex_text`), `atomicbox` (`real_time_box_channel`), `rand` (`samples_utils`, `flow_table`),
and `std::str::from_utf8` (`byte_utils`). Each says what is claimed of the function which it calls.
