# ephemwork

Run one service of a staging environment on your laptop and have the staging
traffic that carries your header routed to it.

`ephemwork up <service>` starts the service locally, registers the pair of user
and service with a small control plane on a bastion, and opens a reverse tunnel
from the bastion to the laptop. nginx on the bastion maps the header
`X-Ephemwork: <user>:<service>` to the tunnel. `ephemwork down` takes it all
back, and `ephemwork bastion init | destroy | status` manages the bastion itself.

## Layout

`src/` is the library: everything that is decided or computed, proved with Verus.

| module | what it holds |
| --- | --- |
| `registry` | which pair has which port of the bastion |
| `http`, `handlers` | the control plane: requests, routes, answers |
| `bastion_client`, `wire` | the laptop's side of it, and that the two sides understand each other |
| `common`, `bastion_protocol` | the messages, their JSON, the header value |
| `nginx` | the configuration that routes the header values |
| `config`, `state`, `files` | `ephemwork.toml`, the recorded sessions, what a file read means |
| `saved_state` | the state file: how it is written and taken in |
| `ssm`, `tunnel`, `runner` | port forwards, SSH settings, ports and health checks |
| `up_flow`, `down_flow` | the order of actions of `up` and `down` |
| `commands`, `report` | what the commands decide and print |
| `bastion_provisioner` | names, plans and the order of calls that set up and remove the bastion |
| `aws_bastion_provisioner`, `aws_steps`, `base64` | what is made of the answers of AWS, and which call comes next |
| `text`, `order` | strings as sequences of characters, lists in order |

Functions whose names begin with `law_` state what holds of the library as a
whole: that a registration undone leaves nothing behind, that no two pairs share a
port, that a request survives any way it is cut up on the network, that what `up`
records is what came about, that the local state is cleared whatever the bastion
does, and the like.

A few small functions marked `external_body` call the standard library,
`serde_json` and `chrono`; their doc comments say what is taken on trust.

`app/` is the program around the library: the command line, files, sockets,
child processes, SSH and AWS. It performs the actions that the library asks for
and hands back what came of them. Started under the name `bastion-server` it is
the control plane. `app/ec2.rs` needs `aws-sdk-ec2`, which `Cargo.toml` leaves out:
compiling that crate takes several gigabytes of memory. Add it to build the program.

`tests/` runs the library on concrete values.
