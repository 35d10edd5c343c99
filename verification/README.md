# Argus Manager

The resource manager of an on-device LLM inference engine. It watches memory, compute,
temperature and power, lets a Lua script decide, and sends the engine commands: compress the KV
cache to a budget, release what was applied, suspend, resume.

- `src/` is the library, proved with Verus: the pressure and its triggers, the context that a
  script sees and the commands that come of it, the suppression of repeated directives, the GPU
  readings, the framing of messages, and the steps of the service and of its two mock peers.
- `src/float/` computes binary32 and binary64 arithmetic in whole numbers, correctly rounded, so
  that thresholds and budgets are part of what is proved.
- `src/lua/vm.rs` and `src/float/decimal.rs` hold the calls whose contracts are believed: the Lua
  virtual machine, and the reading of decimal fractions.
- `tests/` runs the library.
- `app/` is the program around it: sockets, files, threads, D-Bus, JSON and TOML. It is the
  manager, and under the names `mock_engine` and `mock_manager` its mock peers.

A policy script defines `decide(ctx)` and returns `nil`, one action or an array of them:

```lua
function decide(ctx)
  if ctx.trigger.mem_low then
    return { type = "kv.compress", budget = 0.5 }
  end
  return { type = "restore_defaults" }
end
```
